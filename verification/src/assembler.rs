//! The piece assembler: verified pieces arrive in arbitrary order, each index
//! is kept at most once, and the finished payload is the concatenation of the
//! pieces in ascending index order.

use vstd::prelude::*;

use crate::hashing::{spec_sha1, verify_piece};
use crate::torrent::{spec_num_pieces, spec_piece_size};

verus! {

/// Accumulates verified pieces and emits the payload once every piece is in.
pub struct Assembler {
    plength: usize,
    total: usize,
    hashes: Vec<Vec<u8>>,
    stored: Vec<Option<Vec<u8>>>,
}

impl Assembler {
    /// The piece length `P`.
    pub closed spec fn plength(&self) -> int {
        self.plength as int
    }

    /// The payload length `L`.
    pub closed spec fn total(&self) -> int {
        self.total as int
    }

    /// The expected 20-byte digest of each piece.
    pub closed spec fn hashes(&self) -> Seq<Seq<u8>> {
        Seq::new(self.hashes@.len(), |i: int| self.hashes@[i]@)
    }

    /// The piece payloads delivered so far, by index.
    pub closed spec fn pieces(&self) -> Seq<Option<Seq<u8>>> {
        Seq::new(
            self.stored@.len(),
            |i: int|
                match self.stored@[i] {
                    Some(v) => Some(v@),
                    None => None,
                },
        )
    }

    /// The number of pieces.
    pub open spec fn num_pieces(&self) -> int {
        self.hashes().len() as int
    }

    /// Every stored piece has the size its index demands and the digest the
    /// descriptor promises, and the piece table matches the payload split.
    pub closed spec fn wf(&self) -> bool {
        &&& self.plength >= 1
        &&& 1 <= self.total <= usize::MAX
        &&& self.hashes@.len() == spec_num_pieces(self.total as int, self.plength as int)
        &&& self.stored@.len() == self.hashes@.len()
        &&& forall|i: int| 0 <= i < self.hashes@.len() ==> self.hashes@[i]@.len() == 20
        &&& forall|i: int|
            0 <= i < self.stored@.len() && self.stored@[i] is Some ==> {
                &&& (#[trigger] self.stored@[i])->0@.len() == spec_piece_size(
                    self.total as int,
                    self.plength as int,
                    self.stored@.len() as int,
                    i,
                )
                &&& spec_sha1(self.stored@[i]->0@) == self.hashes@[i]@
            }
    }

    /// Every piece has been delivered.
    pub open spec fn complete(&self) -> bool {
        forall|i: int| 0 <= i < self.pieces().len() ==> self.pieces()[i] is Some
    }

    /// An empty assembler for a payload of `total` bytes split into pieces
    /// of `plength` bytes with the given expected digests.
    pub fn new(hashes: Vec<Vec<u8>>, plength: usize, total: usize) -> (a: Self)
        requires
            plength >= 1,
            total >= 1,
            hashes@.len() == spec_num_pieces(total as int, plength as int),
            forall|i: int| 0 <= i < hashes@.len() ==> hashes@[i]@.len() == 20,
        ensures
            a.wf(),
            a.plength() == plength,
            a.total() == total,
            a.hashes() == Seq::new(hashes@.len(), |i: int| hashes@[i]@),
            a.pieces().len() == hashes@.len(),
            forall|i: int| 0 <= i < a.pieces().len() ==> a.pieces()[i] is None,
    {
        let n = hashes.len();
        let mut stored: Vec<Option<Vec<u8>>> = Vec::new();
        let mut i: usize = 0;
        while i < n
            invariant
                i <= n,
                stored@.len() == i,
                forall|j: int| 0 <= j < i ==> stored@[j] is None,
            decreases n - i,
        {
            stored.push(None);
            i = i + 1;
        }
        Assembler { plength, total, hashes, stored }
    }

    /// Whether every piece has been delivered.
    pub fn is_complete(&self) -> (r: bool)
        ensures
            r == self.complete(),
    {
        let mut i: usize = 0;
        while i < self.stored.len()
            invariant
                i <= self.stored@.len(),
                forall|j: int| 0 <= j < i ==> self.pieces()[j] is Some,
            decreases self.stored@.len() - i,
        {
            if self.stored[i].is_none() {
                assert(self.pieces()[i as int] is None);
                return false;
            }
            i = i + 1;
        }
        true
    }

    /// Deliver a downloaded piece. The piece is kept exactly when its index
    /// is in range, its size is what that index demands, and its SHA-1
    /// digest matches the descriptor; a duplicate of an already-kept piece
    /// is dropped. Returns whether the bytes were verified.
    pub fn accept(&mut self, piece_index: usize, data: Vec<u8>) -> (r: bool)
        requires
            old(self).wf(),
        ensures
            final(self).wf(),
            final(self).plength() == old(self).plength(),
            final(self).total() == old(self).total(),
            final(self).hashes() == old(self).hashes(),
            r == (piece_index < old(self).num_pieces() && data@.len() == spec_piece_size(
                old(self).total(),
                old(self).plength(),
                old(self).num_pieces(),
                piece_index as int,
            ) && spec_sha1(data@) == old(self).hashes()[piece_index as int]),
            r && old(self).pieces()[piece_index as int] is None ==> final(self).pieces() == old(
                self,
            ).pieces().update(piece_index as int, Some(data@)),
            !(r && old(self).pieces()[piece_index as int] is None) ==> final(self).pieces() == old(
                self,
            ).pieces(),
    {
        if piece_index >= self.hashes.len() {
            assert(final(self).pieces() =~= old(self).pieces());
            return false;
        }
        let expected_size = piece_size_of(self.total, self.plength, self.hashes.len(), piece_index);
        if data.len() != expected_size {
            assert(final(self).pieces() =~= old(self).pieces());
            return false;
        }
        let ok = verify_piece(&data, &self.hashes[piece_index]);
        if !ok {
            assert(final(self).pieces() =~= old(self).pieces());
            return false;
        }
        if self.stored[piece_index].is_some() {
            assert(final(self).pieces() =~= old(self).pieces());
            return true;
        }
        self.stored.set(piece_index, Some(data));
        assert(final(self).pieces() =~= old(self).pieces().update(
            piece_index as int,
            Some(data@),
        ));
        true
    }

    /// Emit the payload: the concatenation of all pieces in ascending index
    /// order. The result is exactly `total` bytes, and the slice at each
    /// piece's offset is the very piece whose digest the descriptor demands.
    pub fn assemble(&self) -> (out: Vec<u8>)
        requires
            self.wf(),
            self.complete(),
        ensures
            out@.len() == self.total(),
            forall|i: int|
                #![trigger self.pieces()[i]]
                0 <= i < self.num_pieces() ==> {
                    let lo = i * self.plength();
                    let sz = spec_piece_size(
                        self.total(),
                        self.plength(),
                        self.num_pieces(),
                        i,
                    );
                    &&& out@.subrange(lo, lo + sz) == self.pieces()[i]->0
                    &&& spec_sha1(out@.subrange(lo, lo + sz)) == self.hashes()[i]
                },
    {
        proof {
            crate::torrent::lemma_piece_sizes(self.total(), self.plength());
        }
        let n = self.stored.len();
        let ghost total = self.total();
        let ghost plength = self.plength();
        let mut out: Vec<u8> = Vec::new();
        let mut i: usize = 0;
        while i < n
            invariant
                self.wf(),
                self.complete(),
                n == self.stored@.len(),
                total == self.total(),
                plength == self.plength(),
                n >= 1,
                (n - 1) * plength + spec_piece_size(total, plength, n as int, n - 1) == total,
                i <= n,
                i < n ==> out@.len() == i * plength,
                i == n ==> out@.len() == total,
                forall|j: int|
                    #![trigger self.pieces()[j]]
                    0 <= j < i ==> {
                        let lo = j * plength;
                        let sz = spec_piece_size(total, plength, n as int, j);
                        lo + sz <= out@.len() && out@.subrange(lo, lo + sz) == self.pieces()[j]->0
                    },
            decreases n - i,
        {
            proof {
                if i < n - 1 {
                    vstd::arithmetic::mul::lemma_mul_inequality(i + 1, n - 1, plength);
                    assert((i + 1) * plength == i * plength + plength) by (nonlinear_arith);
                } else {
                    assert(i == n - 1);
                }
                assert(spec_piece_size(total, plength, n as int, n - 1) >= 1);
            }
            let piece = match &self.stored[i] {
                Some(p) => p,
                None => {
                    proof {
                        assert(self.pieces()[i as int] is Some);
                    }
                    unreached()
                },
            };
            let ghost out_before = out@;
            let mut k: usize = 0;
            while k < piece.len()
                invariant
                    k <= piece@.len(),
                    out@ == out_before + piece@.subrange(0, k as int),
                decreases piece@.len() - k,
            {
                let b = piece[k];
                out.push(b);
                k = k + 1;
                assert(out@ =~= out_before + piece@.subrange(0, k as int));
            }
            assert(piece@.subrange(0, piece@.len() as int) =~= piece@);
            assert(out@ == out_before + piece@);
            proof {
                let sz = spec_piece_size(total, plength, n as int, i as int);
                assert(piece@.len() == sz);
                assert(out@.subrange(i * plength, i * plength + sz) =~= piece@);
                assert forall|j: int| #![trigger self.pieces()[j]] 0 <= j < i implies {
                    let lo = j * plength;
                    let szj = spec_piece_size(total, plength, n as int, j);
                    lo + szj <= out@.len() && out@.subrange(lo, lo + szj) == self.pieces()[j]->0
                } by {
                    let lo = j * plength;
                    let szj = spec_piece_size(total, plength, n as int, j);
                    assert(out@.subrange(lo, lo + szj) =~= out_before.subrange(lo, lo + szj));
                }
            }
            i = i + 1;
        }
        out
    }
}

/// The byte length of piece `i` out of `n` covering `total` bytes in chunks
/// of `plength`.
fn piece_size_of(total: usize, plength: usize, n: usize, i: usize) -> (r: usize)
    requires
        plength >= 1,
        total >= 1,
        n == spec_num_pieces(total as int, plength as int),
        i < n,
    ensures
        r == spec_piece_size(total as int, plength as int, n as int, i as int),
{
    if i == n - 1 {
        let md = total % plength;
        if md == 0 {
            plength
        } else {
            md
        }
    } else {
        plength
    }
}

/// Assembler ordering: delivering two distinct pieces in either order leaves
/// the assembler in the same state, so the emitted stream does not depend on
/// the interleaving in which verified pieces arrive.
pub proof fn lemma_accept_commutes(
    p: Seq<Option<Seq<u8>>>,
    i: int,
    j: int,
    x: Seq<u8>,
    y: Seq<u8>,
)
    requires
        0 <= i < p.len(),
        0 <= j < p.len(),
        i != j,
    ensures
        p.update(i, Some(x)).update(j, Some(y)) == p.update(j, Some(y)).update(i, Some(x)),
{
    assert(p.update(i, Some(x)).update(j, Some(y)) =~= p.update(j, Some(y)).update(i, Some(x)));
}

} // verus!
