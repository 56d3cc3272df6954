//! The fixed 68-byte protocol handshake: a length byte, the 19-byte protocol
//! literal, eight reserved zero bytes, the info hash, and the peer id.

use vstd::prelude::*;

use crate::bytesutil::{append_bytes, copy_range};

verus! {

/// The 19 bytes of the protocol literal, "BitTorrent protocol".
pub open spec fn spec_protocol() -> Seq<u8> {
    seq![
        66u8,
        105u8,
        116u8,
        84u8,
        111u8,
        114u8,
        114u8,
        101u8,
        110u8,
        116u8,
        32u8,
        112u8,
        114u8,
        111u8,
        116u8,
        111u8,
        99u8,
        111u8,
        108u8,
    ]
}

/// The 68 bytes a handshake occupies on the wire.
pub open spec fn spec_handshake_bytes(info_hash: Seq<u8>, peer_id: Seq<u8>) -> Seq<u8> {
    seq![19u8] + spec_protocol() + seq![0u8, 0u8, 0u8, 0u8, 0u8, 0u8, 0u8, 0u8] + info_hash
        + peer_id
}

/// The two identifying fields of a handshake; the layout around them is
/// fixed.
#[derive(Clone, Debug)]
pub struct Handshake {
    pub info_hash: Vec<u8>,
    pub peer_id: Vec<u8>,
}

/// The protocol literal as bytes.
fn protocol_bytes() -> (r: Vec<u8>)
    ensures
        r@ == spec_protocol(),
{
    let mut out: Vec<u8> = Vec::new();
    out.push(66);
    out.push(105);
    out.push(116);
    out.push(84);
    out.push(111);
    out.push(114);
    out.push(114);
    out.push(101);
    out.push(110);
    out.push(116);
    out.push(32);
    out.push(112);
    out.push(114);
    out.push(111);
    out.push(116);
    out.push(111);
    out.push(99);
    out.push(111);
    out.push(108);
    assert(out@ =~= spec_protocol());
    out
}

impl Handshake {
    /// A handshake carrying the given 20-byte info hash and peer id.
    pub fn new(info_hash: Vec<u8>, peer_id: Vec<u8>) -> (h: Self)
        requires
            info_hash@.len() == 20,
            peer_id@.len() == 20,
        ensures
            h.info_hash == info_hash,
            h.peer_id == peer_id,
    {
        Handshake { info_hash, peer_id }
    }

    /// The 68 wire bytes of this handshake.
    pub fn to_bytes(&self) -> (r: Vec<u8>)
        requires
            self.info_hash@.len() == 20,
            self.peer_id@.len() == 20,
        ensures
            r@ == spec_handshake_bytes(self.info_hash@, self.peer_id@),
            r@.len() == 68,
    {
        let mut out: Vec<u8> = Vec::new();
        out.push(19);
        let proto = protocol_bytes();
        append_bytes(&mut out, &proto);
        let mut k: usize = 0;
        while k < 8
            invariant
                k <= 8,
                out@ == seq![19u8] + spec_protocol() + Seq::new(k as nat, |i: int| 0u8),
            decreases 8 - k,
        {
            out.push(0);
            k = k + 1;
            assert(out@ =~= seq![19u8] + spec_protocol() + Seq::new(k as nat, |i: int| 0u8));
        }
        assert(Seq::new(8nat, |i: int| 0u8) =~= seq![0u8, 0u8, 0u8, 0u8, 0u8, 0u8, 0u8, 0u8]);
        append_bytes(&mut out, &self.info_hash);
        append_bytes(&mut out, &self.peer_id);
        assert(out@ =~= spec_handshake_bytes(self.info_hash@, self.peer_id@));
        out
    }

    /// Read back a handshake. Succeeds exactly on a 68-byte buffer whose
    /// length byte is 19 and whose protocol literal matches; the peer's
    /// info hash and peer id are taken as they stand.
    pub fn from_bytes(data: &Vec<u8>) -> (r: Option<Handshake>)
        ensures
            (data@.len() == 68 && data@[0] == 19 && data@.subrange(1, 20) == spec_protocol())
                <==> r is Some,
            r matches Some(h) ==> h.info_hash@ == data@.subrange(28, 48) && h.peer_id@
                == data@.subrange(48, 68) && h.info_hash@.len() == 20 && h.peer_id@.len() == 20,
    {
        if data.len() != 68 {
            return None;
        }
        if data[0] != 19 {
            return None;
        }
        let proto = protocol_bytes();
        let mut i: usize = 0;
        while i < 19
            invariant
                i <= 19,
                data@.len() == 68,
                proto@ == spec_protocol(),
                forall|j: int| 0 <= j < i ==> data@[1 + j] == proto@[j],
            decreases 19 - i,
        {
            if data[1 + i] != proto[i] {
                assert(data@.subrange(1, 20) != spec_protocol()) by {
                    assert(data@.subrange(1, 20)[i as int] == data@[1 + i]);
                }
                return None;
            }
            i = i + 1;
        }
        assert(data@.subrange(1, 20) =~= spec_protocol());
        let info_hash = copy_range(data, 28, 48);
        let peer_id = copy_range(data, 48, 68);
        Some(Handshake { info_hash, peer_id })
    }
}

} // verus!
