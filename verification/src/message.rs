//! Logical peer-protocol messages: the nine wire tags, the tagged payload,
//! and the fixed-layout `Request` and `Piece` payload views.

use vstd::prelude::*;

verus! {

/// The nine message kinds of the peer wire protocol.
#[derive(Clone, Copy, Debug, PartialEq, Eq, Structural)]
pub enum MessageTag {
    Choke,
    Unchoke,
    Interested,
    NotInterested,
    Have,
    Bitfield,
    Request,
    Piece,
    Cancel,
}

/// The wire byte that carries each tag.
pub open spec fn spec_tag_byte(t: MessageTag) -> u8 {
    match t {
        MessageTag::Choke => 0,
        MessageTag::Unchoke => 1,
        MessageTag::Interested => 2,
        MessageTag::NotInterested => 3,
        MessageTag::Have => 4,
        MessageTag::Bitfield => 5,
        MessageTag::Request => 6,
        MessageTag::Piece => 7,
        MessageTag::Cancel => 8,
    }
}

/// The tag a wire byte stands for; meaningful only for bytes 0 through 8.
pub open spec fn spec_byte_tag(b: u8) -> MessageTag {
    if b == 0 {
        MessageTag::Choke
    } else if b == 1 {
        MessageTag::Unchoke
    } else if b == 2 {
        MessageTag::Interested
    } else if b == 3 {
        MessageTag::NotInterested
    } else if b == 4 {
        MessageTag::Have
    } else if b == 5 {
        MessageTag::Bitfield
    } else if b == 6 {
        MessageTag::Request
    } else if b == 7 {
        MessageTag::Piece
    } else {
        MessageTag::Cancel
    }
}

impl MessageTag {
    /// The byte that encodes this tag on the wire.
    pub fn to_byte(self) -> (b: u8)
        ensures
            b == spec_tag_byte(self),
    {
        match self {
            MessageTag::Choke => 0,
            MessageTag::Unchoke => 1,
            MessageTag::Interested => 2,
            MessageTag::NotInterested => 3,
            MessageTag::Have => 4,
            MessageTag::Bitfield => 5,
            MessageTag::Request => 6,
            MessageTag::Piece => 7,
            MessageTag::Cancel => 8,
        }
    }

    /// The tag a wire byte stands for, or `None` for an unknown byte.
    pub fn from_byte(b: u8) -> (r: Option<MessageTag>)
        ensures
            b <= 8 ==> r == Some(spec_byte_tag(b)),
            b > 8 ==> r is None,
    {
        if b == 0 {
            Some(MessageTag::Choke)
        } else if b == 1 {
            Some(MessageTag::Unchoke)
        } else if b == 2 {
            Some(MessageTag::Interested)
        } else if b == 3 {
            Some(MessageTag::NotInterested)
        } else if b == 4 {
            Some(MessageTag::Have)
        } else if b == 5 {
            Some(MessageTag::Bitfield)
        } else if b == 6 {
            Some(MessageTag::Request)
        } else if b == 7 {
            Some(MessageTag::Piece)
        } else if b == 8 {
            Some(MessageTag::Cancel)
        } else {
            None
        }
    }
}

/// Round trip between a tag and its wire byte.
pub proof fn lemma_tag_byte_round_trip(t: MessageTag)
    ensures
        spec_tag_byte(t) <= 8,
        spec_byte_tag(spec_tag_byte(t)) == t,
{
}

/// One logical peer message: a tag with its payload bytes (the payload does
/// not include the tag byte).
#[derive(Clone, Debug, PartialEq, Eq)]
pub struct Message {
    pub tag: MessageTag,
    pub payload: Vec<u8>,
}

/// The big-endian 32-bit value held by the first four bytes of `b`.
pub open spec fn spec_be32(b: Seq<u8>) -> u32
    recommends
        b.len() >= 4,
{
    ((b[0] as u32) << 24) | ((b[1] as u32) << 16) | ((b[2] as u32) << 8) | (b[3] as u32)
}

/// The four big-endian bytes of a 32-bit value.
pub open spec fn spec_u32_be(n: u32) -> Seq<u8> {
    seq![
        ((n >> 24) & 0xff) as u8,
        ((n >> 16) & 0xff) as u8,
        ((n >> 8) & 0xff) as u8,
        (n & 0xff) as u8,
    ]
}

pub proof fn lemma_u32_be_round_trip(n: u32)
    ensures
        spec_u32_be(n).len() == 4,
        spec_be32(spec_u32_be(n)) == n,
{
    assert((((n >> 24) & 0xff) << 24) | (((n >> 16) & 0xff) << 16) | (((n >> 8) & 0xff) << 8) | (
    n & 0xff) == n) by (bit_vector);
    assert((n >> 24) & 0xff < 256 && (n >> 16) & 0xff < 256 && (n >> 8) & 0xff < 256 && n & 0xff
        < 256) by (bit_vector);
}

/// Append the four big-endian bytes of `n` to `out`.
pub fn push_u32_be(n: u32, out: &mut Vec<u8>)
    ensures
        final(out)@ == old(out)@ + spec_u32_be(n),
{
    proof {
        lemma_u32_be_round_trip(n);
    }
    assert(n >> 24 < 256 && (n >> 16) & 0xff < 256 && (n >> 8) & 0xff < 256 && n & 0xff < 256)
        by (bit_vector);
    out.push(((n >> 24u32) & 0xff) as u8);
    out.push(((n >> 16u32) & 0xff) as u8);
    out.push(((n >> 8u32) & 0xff) as u8);
    out.push((n & 0xff) as u8);
    assert(final(out)@ =~= old(out)@ + spec_u32_be(n));
}

/// The payload of a `Request` message: three big-endian 32-bit fields.
pub open spec fn spec_request_bytes(index: u32, begin: u32, length: u32) -> Seq<u8> {
    spec_u32_be(index) + spec_u32_be(begin) + spec_u32_be(length)
}

/// The payload of a `Request` message: which piece, the byte offset inside
/// it, and how many bytes are asked for.
#[derive(Clone, Copy, Debug, PartialEq, Eq, Structural)]
pub struct Request {
    index: u32,
    begin: u32,
    length: u32,
}

impl Request {
    pub fn new(index: u32, begin: u32, length: u32) -> (r: Self)
        ensures
            r.index() == index,
            r.begin() == begin,
            r.length() == length,
    {
        Request { index, begin, length }
    }

    #[verifier::when_used_as_spec(spec_index)]
    pub fn index(&self) -> (r: u32)
        ensures
            r == self.spec_index(),
    {
        self.index
    }

    #[verifier::when_used_as_spec(spec_begin)]
    pub fn begin(&self) -> (r: u32)
        ensures
            r == self.spec_begin(),
    {
        self.begin
    }

    #[verifier::when_used_as_spec(spec_length)]
    pub fn length(&self) -> (r: u32)
        ensures
            r == self.spec_length(),
    {
        self.length
    }

    pub closed spec fn spec_index(&self) -> u32 {
        self.index
    }

    pub closed spec fn spec_begin(&self) -> u32 {
        self.begin
    }

    pub closed spec fn spec_length(&self) -> u32 {
        self.length
    }

    /// The twelve payload bytes this request occupies on the wire.
    pub fn to_bytes(&self) -> (r: Vec<u8>)
        ensures
            r@ == spec_request_bytes(self.spec_index(), self.spec_begin(), self.spec_length()),
    {
        let mut out: Vec<u8> = Vec::new();
        push_u32_be(self.index, &mut out);
        push_u32_be(self.begin, &mut out);
        push_u32_be(self.length, &mut out);
        out
    }
}

/// The decoded payload of a `Piece` message: which piece, the byte offset of
/// the block inside it, and the block's bytes.
#[derive(Clone, Debug, PartialEq, Eq)]
pub struct Piece {
    index: u32,
    begin: u32,
    block: Vec<u8>,
}

impl Piece {
    #[verifier::when_used_as_spec(spec_index)]
    pub fn index(&self) -> (r: u32)
        ensures
            r == self.spec_index(),
    {
        self.index
    }

    #[verifier::when_used_as_spec(spec_begin)]
    pub fn begin(&self) -> (r: u32)
        ensures
            r == self.spec_begin(),
    {
        self.begin
    }

    pub fn block(&self) -> (r: &Vec<u8>)
        ensures
            r@ == self.spec_block(),
    {
        &self.block
    }

    pub closed spec fn spec_index(&self) -> u32 {
        self.index
    }

    pub closed spec fn spec_begin(&self) -> u32 {
        self.begin
    }

    pub closed spec fn spec_block(&self) -> Seq<u8> {
        self.block@
    }

    /// Read a `Piece` payload: the first two big-endian 32-bit fields and
    /// the remaining block bytes. Fails exactly on payloads shorter than the
    /// eight-byte lead.
    pub fn ref_from_bytes(data: &Vec<u8>) -> (r: Option<Piece>)
        ensures
            data@.len() < 8 ==> r is None,
            data@.len() >= 8 ==> (r matches Some(p) && p.spec_index() == spec_be32(
                data@.subrange(0, 4),
            ) && p.spec_begin() == spec_be32(data@.subrange(4, 8)) && p.spec_block()
                == data@.skip(8)),
    {
        if data.len() < 8 {
            return None;
        }
        let index: u32 = ((data[0] as u32) << 24u32) | ((data[1] as u32) << 16u32) | ((data[2]
            as u32) << 8u32) | (data[3] as u32);
        let begin: u32 = ((data[4] as u32) << 24u32) | ((data[5] as u32) << 16u32) | ((data[6]
            as u32) << 8u32) | (data[7] as u32);
        let mut block: Vec<u8> = Vec::new();
        let mut i: usize = 8;
        while i < data.len()
            invariant
                8 <= i <= data@.len(),
                block@ == data@.subrange(8, i as int),
            decreases data@.len() - i,
        {
            let b = data[i];
            block.push(b);
            i = i + 1;
            assert(block@ =~= data@.subrange(8, i as int));
        }
        assert(block@ =~= data@.skip(8));
        assert(index == spec_be32(data@.subrange(0, 4)));
        assert(begin == spec_be32(data@.subrange(4, 8)));
        Some(Piece { index, begin, block })
    }
}

} // verus!
