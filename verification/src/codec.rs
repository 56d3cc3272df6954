//! The wire codec: length-prefixed frames `u32_be(length) || tag || payload`.
//! A frame of length 0 is a heartbeat and is dropped silently; a frame whose
//! claimed length exceeds [`MAX_FRAME`] is rejected before any payload is
//! gathered.

use vstd::prelude::*;

use crate::message::{
    lemma_u32_be_round_trip, spec_be32, spec_byte_tag, spec_tag_byte, spec_u32_be, Message,
    MessageTag,
};

verus! {

/// Largest frame length (tag byte plus payload) the codec accepts.
pub const MAX_FRAME: usize = 65536;

/// Why a frame was refused.
#[derive(Clone, Copy, Debug, PartialEq, Eq, Structural)]
pub enum CodecError {
    /// The length prefix claims more than [`MAX_FRAME`] bytes.
    InvalidFrame,
    /// The tag byte is not one of the nine known tags.
    InvalidTag,
}

/// The bytes a message occupies on the wire.
pub open spec fn spec_frame(tag: MessageTag, payload: Seq<u8>) -> Seq<u8> {
    spec_u32_be((payload.len() + 1) as u32) + seq![spec_tag_byte(tag)] + payload
}

/// The buffer with every leading heartbeat (length prefix 0) removed.
pub open spec fn spec_peel(b: Seq<u8>) -> Seq<u8>
    decreases b.len(),
{
    if b.len() >= 4 && spec_be32(b) == 0 {
        spec_peel(b.skip(4))
    } else {
        b
    }
}

/// After peeling, more bytes must arrive before a frame can be produced.
pub open spec fn spec_decode_need_more(p: Seq<u8>) -> bool {
    p.len() < 5 || (spec_be32(p) <= MAX_FRAME && p.len() < 4 + spec_be32(p))
}

/// After peeling, the frame claims a length beyond [`MAX_FRAME`].
pub open spec fn spec_decode_oversize(p: Seq<u8>) -> bool {
    p.len() >= 5 && spec_be32(p) > MAX_FRAME
}

/// After peeling, a whole frame is buffered but its tag byte is unknown.
pub open spec fn spec_decode_bad_tag(p: Seq<u8>) -> bool {
    &&& p.len() >= 5
    &&& spec_be32(p) <= MAX_FRAME
    &&& p.len() >= 4 + spec_be32(p)
    &&& p[4] > 8
}

/// After peeling, a whole well-formed frame is buffered.
pub open spec fn spec_decode_ready(p: Seq<u8>) -> bool {
    &&& p.len() >= 5
    &&& spec_be32(p) <= MAX_FRAME
    &&& p.len() >= 4 + spec_be32(p)
    &&& p[4] <= 8
}

/// The tag of the buffered frame, once [`spec_decode_ready`] holds of the
/// peeled buffer.
pub open spec fn spec_decoded_tag(p: Seq<u8>) -> MessageTag {
    spec_byte_tag(p[4])
}

/// The payload of the buffered frame.
pub open spec fn spec_decoded_payload(p: Seq<u8>) -> Seq<u8> {
    p.subrange(5, 4 + spec_be32(p) as int)
}

/// What stays in the buffer after the frame is consumed.
pub open spec fn spec_decoded_rest(p: Seq<u8>) -> Seq<u8> {
    p.skip(4 + spec_be32(p) as int)
}

/// A framed message followed by arbitrary bytes decodes to exactly that
/// message, leaving the trailing bytes in the buffer.
pub proof fn lemma_decode_frame(tag: MessageTag, payload: Seq<u8>, rest: Seq<u8>)
    requires
        payload.len() + 1 <= MAX_FRAME,
    ensures
        ({
            let b = spec_frame(tag, payload) + rest;
            &&& spec_peel(b) == b
            &&& spec_decode_ready(b)
            &&& spec_decoded_tag(b) == tag
            &&& spec_decoded_payload(b) == payload
            &&& spec_decoded_rest(b) == rest
        }),
{
    let n = (payload.len() + 1) as u32;
    let b = spec_frame(tag, payload) + rest;
    lemma_u32_be_round_trip(n);
    assert(b[0] == spec_u32_be(n)[0] && b[1] == spec_u32_be(n)[1] && b[2] == spec_u32_be(n)[2]
        && b[3] == spec_u32_be(n)[3]);
    assert(spec_be32(b) == spec_be32(spec_u32_be(n)));
    assert(spec_be32(b) == n);
    assert(b[4] == spec_tag_byte(tag));
    crate::message::lemma_tag_byte_round_trip(tag);
    assert(spec_decoded_payload(b) =~= payload);
    assert(spec_decoded_rest(b) =~= rest);
}

/// Round trip: the frame of a well-formed message decodes back to that very
/// message, consuming the whole frame.
pub proof fn lemma_round_trip(tag: MessageTag, payload: Seq<u8>)
    requires
        payload.len() + 1 <= MAX_FRAME,
    ensures
        ({
            let b = spec_frame(tag, payload);
            &&& spec_peel(b) == b
            &&& spec_decode_ready(b)
            &&& spec_decoded_tag(b) == tag
            &&& spec_decoded_payload(b) == payload
            &&& spec_decoded_rest(b).len() == 0
        }),
{
    lemma_decode_frame(tag, payload, Seq::<u8>::empty());
    assert(spec_frame(tag, payload) + Seq::<u8>::empty() =~= spec_frame(tag, payload));
}

/// Heartbeat transparency: a stream holding one message's frame, a heartbeat,
/// and a second message's frame decodes to exactly the two messages in order;
/// the heartbeat never surfaces.
pub proof fn lemma_heartbeat_transparency(
    tag1: MessageTag,
    payload1: Seq<u8>,
    tag2: MessageTag,
    payload2: Seq<u8>,
)
    requires
        payload1.len() + 1 <= MAX_FRAME,
        payload2.len() + 1 <= MAX_FRAME,
    ensures
        ({
            let b = spec_frame(tag1, payload1) + spec_u32_be(0) + spec_frame(tag2, payload2);
            let r1 = spec_decoded_rest(spec_peel(b));
            &&& spec_peel(b) == b
            &&& spec_decode_ready(b)
            &&& spec_decoded_tag(b) == tag1
            &&& spec_decoded_payload(b) == payload1
            &&& spec_peel(r1) == spec_frame(tag2, payload2)
            &&& spec_decode_ready(spec_peel(r1))
            &&& spec_decoded_tag(spec_peel(r1)) == tag2
            &&& spec_decoded_payload(spec_peel(r1)) == payload2
            &&& spec_decoded_rest(spec_peel(r1)).len() == 0
        }),
{
    let f2 = spec_frame(tag2, payload2);
    let mid = spec_u32_be(0) + f2;
    let b = spec_frame(tag1, payload1) + spec_u32_be(0) + f2;
    assert(b =~= spec_frame(tag1, payload1) + mid);
    lemma_decode_frame(tag1, payload1, mid);
    let r1 = spec_decoded_rest(spec_peel(b));
    assert(r1 == mid);
    lemma_u32_be_round_trip(0);
    assert(spec_be32(mid) == spec_be32(spec_u32_be(0)));
    assert(spec_be32(mid) == 0);
    assert(mid.skip(4) =~= f2);
    lemma_round_trip(tag2, payload2);
    assert(spec_peel(mid) == spec_peel(f2));
}

/// Frame-bound guard: a buffer whose first frame claims a length beyond
/// [`MAX_FRAME`] makes decode fail with [`CodecError::InvalidFrame`] (the
/// decode contract maps [`spec_decode_oversize`] to that error), and no
/// payload bytes are consumed.
pub proof fn lemma_oversize_rejected(b: Seq<u8>)
    requires
        b.len() >= 5,
        spec_be32(b) > MAX_FRAME,
    ensures
        spec_peel(b) == b,
        spec_decode_oversize(spec_peel(b)),
{
}

/// The stateless frame codec.
pub struct MessageFramer;

/// Remove the first `n` bytes of `v`.
fn drain_front(v: &mut Vec<u8>, n: usize)
    requires
        n <= old(v)@.len(),
    ensures
        final(v)@ == old(v)@.skip(n as int),
{
    let ghost orig = v@;
    let mut out: Vec<u8> = Vec::new();
    let mut j: usize = n;
    while j < v.len()
        invariant
            n <= j <= v@.len(),
            v@ == orig,
            out@ == orig.subrange(n as int, j as int),
        decreases v@.len() - j,
    {
        let b = v[j];
        out.push(b);
        j = j + 1;
        assert(out@ =~= orig.subrange(n as int, j as int));
    }
    assert(out@ =~= orig.skip(n as int));
    *v = out;
}

/// Read the big-endian length prefix of `v`.
fn read_be32(v: &Vec<u8>) -> (n: u32)
    requires
        v@.len() >= 4,
    ensures
        n == spec_be32(v@),
{
    ((v[0] as u32) << 24u32) | ((v[1] as u32) << 16u32) | ((v[2] as u32) << 8u32) | (v[3] as u32)
}

impl MessageFramer {
    /// Append the frame for `item` to `dst`, or refuse an overlong payload
    /// leaving `dst` untouched.
    pub fn encode(&mut self, item: &Message, dst: &mut Vec<u8>) -> (r: Result<(), CodecError>)
        ensures
            item.payload@.len() + 1 <= MAX_FRAME ==> r is Ok && final(dst)@ == old(dst)@
                + spec_frame(item.tag, item.payload@),
            item.payload@.len() + 1 > MAX_FRAME ==> r == Err::<(), CodecError>(
                CodecError::InvalidFrame,
            ) && final(dst)@ == old(dst)@,
    {
        if item.payload.len() >= MAX_FRAME {
            return Err(CodecError::InvalidFrame);
        }
        let n: u32 = item.payload.len() as u32 + 1;
        assert(n >> 24 < 256 && (n >> 16) & 0xff < 256 && (n >> 8) & 0xff < 256 && n & 0xff < 256)
            by (bit_vector);
        dst.push(((n >> 24u32) & 0xff) as u8);
        dst.push(((n >> 16u32) & 0xff) as u8);
        dst.push(((n >> 8u32) & 0xff) as u8);
        dst.push((n & 0xff) as u8);
        dst.push(item.tag.to_byte());
        let mut i: usize = 0;
        while i < item.payload.len()
            invariant
                i <= item.payload@.len(),
                dst@ == old(dst)@ + spec_u32_be((item.payload@.len() + 1) as u32) + seq![
                    spec_tag_byte(item.tag),
                ] + item.payload@.subrange(0, i as int),
            decreases item.payload@.len() - i,
        {
            let b = item.payload[i];
            dst.push(b);
            i = i + 1;
            assert(item.payload@.subrange(0, i - 1) + seq![item.payload@[i - 1]]
                =~= item.payload@.subrange(0, i as int));
            assert(dst@ =~= old(dst)@ + spec_u32_be((item.payload@.len() + 1) as u32) + seq![
                spec_tag_byte(item.tag),
            ] + item.payload@.subrange(0, i as int));
        }
        assert(item.payload@.subrange(0, item.payload@.len() as int) =~= item.payload@);
        assert(dst@ =~= old(dst)@ + spec_frame(item.tag, item.payload@));
        Ok(())
    }

    /// Take the next message out of `src`, dropping leading heartbeats.
    /// `Ok(None)` asks for more bytes; an error leaves the offending frame's
    /// prefix in place.
    pub fn decode(&mut self, src: &mut Vec<u8>) -> (r: Result<Option<Message>, CodecError>)
        ensures
            ({
                let p = spec_peel(old(src)@);
                &&& spec_decode_need_more(p) ==> r == Ok::<Option<Message>, CodecError>(None)
                    && final(src)@ == p
                &&& spec_decode_oversize(p) ==> r == Err::<Option<Message>, CodecError>(
                    CodecError::InvalidFrame,
                ) && final(src)@ == p
                &&& spec_decode_bad_tag(p) ==> r == Err::<Option<Message>, CodecError>(
                    CodecError::InvalidTag,
                ) && final(src)@ == p
                &&& spec_decode_ready(p) ==> {
                    &&& r matches Ok(Some(m)) && m.tag == spec_decoded_tag(p) && m.payload@
                        == spec_decoded_payload(p)
                    &&& final(src)@ == spec_decoded_rest(p)
                }
            }),
        decreases old(src)@.len(),
    {
        if src.len() < 4 {
            return Ok(None);
        }
        let length: u32 = read_be32(src);
        if length == 0 {
            drain_front(src, 4);
            let r = self.decode(src);
            return r;
        }
        if src.len() < 5 {
            return Ok(None);
        }
        if length as usize > MAX_FRAME {
            return Err(CodecError::InvalidFrame);
        }
        let end: usize = 4 + length as usize;
        if src.len() < end {
            return Ok(None);
        }
        let tag = match MessageTag::from_byte(src[4]) {
            Some(t) => t,
            None => {
                return Err(CodecError::InvalidTag);
            },
        };
        let mut payload: Vec<u8> = Vec::new();
        let mut i: usize = 5;
        while i < end
            invariant
                5 <= i <= end,
                end <= src@.len(),
                payload@ == src@.subrange(5, i as int),
            decreases end - i,
        {
            let b = src[i];
            payload.push(b);
            i = i + 1;
            assert(payload@ =~= src@.subrange(5, i as int));
        }
        drain_front(src, end);
        Ok(Some(Message { tag, payload }))
    }
}

} // verus!
