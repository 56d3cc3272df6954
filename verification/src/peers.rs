//! Peer endpoints and the tracker's compact 6-byte-per-peer form: four IPv4
//! octets followed by a big-endian port.

use vstd::prelude::*;

verus! {

/// One peer endpoint: IPv4 octets and TCP port. Never mutated after
/// ingestion.
#[derive(Clone, Copy, Debug)]
pub struct Peer {
    pub ip: [u8; 4],
    pub port: u16,
}

impl Peer {
    pub fn new(ip: [u8; 4], port: u16) -> (p: Self)
        ensures
            p.ip == ip,
            p.port == port,
    {
        Peer { ip, port }
    }
}

/// The peer list a tracker answers with.
#[derive(Clone, Debug)]
pub struct Peers(pub Vec<Peer>);

/// The six compact bytes that stand for one peer.
pub open spec fn spec_peer_bytes(p: Peer) -> Seq<u8> {
    seq![p.ip[0], p.ip[1], p.ip[2], p.ip[3], (p.port >> 8) as u8, (p.port & 0xff) as u8]
}

/// Whether `ps` is exactly the peer list the compact bytes `v` carry.
pub open spec fn spec_peers_of_compact(v: Seq<u8>, ps: Seq<Peer>) -> bool {
    &&& ps.len() == v.len() / 6
    &&& forall|i: int|
        0 <= i < ps.len() ==> #[trigger] spec_peer_bytes(ps[i]) == v.subrange(6 * i, 6 * i + 6)
}

/// Read a compact peer list: six bytes per peer. Fails exactly when the
/// length is not a multiple of six.
pub fn parse_compact_peers(v: &Vec<u8>) -> (r: Option<Peers>)
    ensures
        v@.len() % 6 != 0 ==> r is None,
        v@.len() % 6 == 0 ==> (r matches Some(ps) && spec_peers_of_compact(v@, ps.0@)),
{
    if v.len() % 6 != 0 {
        return None;
    }
    let count = v.len() / 6;
    proof {
        vstd::arithmetic::div_mod::lemma_fundamental_div_mod(v@.len() as int, 6);
    }
    let mut peers: Vec<Peer> = Vec::new();
    let mut i: usize = 0;
    while i < count
        invariant
            i <= count,
            count == v@.len() / 6,
            v@.len() == 6 * count,
            v@.len() <= usize::MAX,
            peers@.len() == i,
            forall|j: int|
                0 <= j < i ==> #[trigger] spec_peer_bytes(peers@[j]) == v@.subrange(
                    6 * j,
                    6 * j + 6,
                ),
        decreases count - i,
    {
        assert(6 * (i as int) + 6 <= 6 * (count as int));
        let off: usize = 6 * i;
        let ip: [u8; 4] = [v[off], v[off + 1], v[off + 2], v[off + 3]];
        let port: u16 = ((v[off + 4] as u16) << 8u16) | (v[off + 5] as u16);
        let p = Peer::new(ip, port);
        proof {
            let hi: u8 = v@[off + 4];
            let lo: u8 = v@[off + 5];
            assert((((hi as u16) << 8) | (lo as u16)) >> 8 == hi as u16) by (bit_vector);
            assert((((hi as u16) << 8) | (lo as u16)) & 0xff == lo as u16) by (bit_vector);
            assert(spec_peer_bytes(p) =~= v@.subrange(6 * i as int, 6 * i as int + 6));
        }
        peers.push(p);
        i = i + 1;
    }
    Some(Peers(peers))
}

/// Write a peer list in its compact form.
pub fn peers_to_compact(ps: &Peers) -> (r: Vec<u8>)
    ensures
        r@.len() == 6 * ps.0@.len(),
        spec_peers_of_compact(r@, ps.0@),
{
    let mut out: Vec<u8> = Vec::new();
    let mut i: usize = 0;
    while i < ps.0.len()
        invariant
            i <= ps.0@.len(),
            out@.len() == 6 * i,
            forall|j: int|
                0 <= j < i ==> #[trigger] spec_peer_bytes(ps.0@[j]) == out@.subrange(
                    6 * j,
                    6 * j + 6,
                ),
        decreases ps.0@.len() - i,
    {
        let ghost before = out@;
        let p = ps.0[i];
        let port: u16 = p.port;
        out.push(p.ip[0]);
        out.push(p.ip[1]);
        out.push(p.ip[2]);
        out.push(p.ip[3]);
        out.push((port >> 8u16) as u8);
        out.push((port & 0xff) as u8);
        proof {
            assert(port >> 8 < 256 && port & 0xff < 256) by (bit_vector);
            assert(out@.subrange(6 * i as int, 6 * i as int + 6) =~= spec_peer_bytes(p));
            assert forall|j: int| 0 <= j < i + 1 implies #[trigger] spec_peer_bytes(ps.0@[j])
                == out@.subrange(6 * j, 6 * j + 6) by {
                if j < i {
                    assert(out@.subrange(6 * j, 6 * j + 6) =~= before.subrange(6 * j, 6 * j + 6));
                }
            }
        }
        i = i + 1;
    }
    out
}

} // verus!
