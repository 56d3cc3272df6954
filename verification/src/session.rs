//! The peer-session automaton and block scheduler: per-connection protocol
//! state, the per-piece download progress with its FIFO of pending blocks,
//! and the decisions the download loop takes on each incoming message.

use vstd::prelude::*;

use crate::assembler::Assembler;
use crate::message::{spec_request_bytes, spec_tag_byte, Message, MessageTag, Piece, Request};
use crate::queue::WorkQueue;
use crate::torrent::{spec_num_pieces, spec_piece_size};

verus! {

/// Largest block asked for in one `Request`: 16 KiB.
pub const BLOCK_MAX: usize = 16384;

/// The four choke/interest flags of one connection.
#[derive(Clone, Copy, Debug, PartialEq, Eq, Structural)]
pub struct PeerState {
    pub am_choking: bool,
    pub am_interested: bool,
    pub peer_choking: bool,
    pub peer_interested: bool,
}

impl PeerState {
    /// The initial state: each side chokes the other and wants nothing.
    pub fn new() -> (s: Self)
        ensures
            s.am_choking == true,
            s.am_interested == false,
            s.peer_choking == true,
            s.peer_interested == false,
    {
        PeerState {
            am_choking: true,
            am_interested: false,
            peer_choking: true,
            peer_interested: false,
        }
    }
}

/// The per-connection protocol state: the flags and the peer's claimed
/// bitfield. The transport itself stays outside the library.
pub struct Session {
    pub peer_state: PeerState,
    pub bitfield: Vec<u8>,
}

/// The number of blocks a piece of `size` bytes splits into.
pub open spec fn spec_num_blocks(size: int) -> int {
    spec_num_pieces(size, BLOCK_MAX as int)
}

/// The byte length of block `b` of a piece of `size` bytes.
pub open spec fn spec_block_size(size: int, b: int) -> int {
    spec_piece_size(size, BLOCK_MAX as int, spec_num_blocks(size), b)
}

/// The download progress of one piece: the FIFO of block indices still to
/// request, and the block bytes received so far.
pub struct PieceProgress {
    pub piece_index: usize,
    pub piece_size: usize,
    pub pending: Vec<usize>,
    pub received: Vec<u8>,
}

impl PieceProgress {
    /// Fresh progress for piece `piece_index` of `piece_size` bytes: every
    /// block pending in ascending order, nothing received.
    pub fn new(piece_index: usize, piece_size: usize) -> (p: Self)
        requires
            1 <= piece_size,
            piece_size + BLOCK_MAX <= usize::MAX,
        ensures
            p.piece_index == piece_index,
            p.piece_size == piece_size,
            p.pending@.len() == spec_num_blocks(piece_size as int),
            forall|i: int| 0 <= i < p.pending@.len() ==> p.pending@[i] == i,
            p.received@.len() == 0,
    {
        let nblocks = (piece_size + (BLOCK_MAX - 1)) / BLOCK_MAX;
        let mut pending: Vec<usize> = Vec::new();
        let mut b: usize = 0;
        while b < nblocks
            invariant
                b <= nblocks,
                pending@.len() == b,
                forall|i: int| 0 <= i < b ==> pending@[i] == i,
            decreases nblocks - b,
        {
            pending.push(b);
            b = b + 1;
        }
        PieceProgress { piece_index, piece_size, pending, received: Vec::new() }
    }

    /// Claim the next block to request: the front of the FIFO.
    pub fn next_block(&mut self) -> (r: Option<usize>)
        ensures
            final(self).piece_index == old(self).piece_index,
            final(self).piece_size == old(self).piece_size,
            final(self).received == old(self).received,
            old(self).pending@.len() == 0 ==> (r is None
                && final(self).pending == old(self).pending),
            old(self).pending@.len() > 0 ==> (r == Some(old(self).pending@[0])
                && final(self).pending@ == old(self).pending@.drop_first()),
    {
        if self.pending.len() == 0 {
            return None;
        }
        let b = self.pending.remove(0);
        assert(final(self).pending@ =~= old(self).pending@.drop_first());
        Some(b)
    }

    /// Hand a block back after a failed request: enqueued at the tail.
    pub fn requeue_block(&mut self, b: usize)
        ensures
            final(self).piece_index == old(self).piece_index,
            final(self).piece_size == old(self).piece_size,
            final(self).received == old(self).received,
            final(self).pending@ == old(self).pending@.push(b),
    {
        self.pending.push(b);
    }

    /// Whether the piece is fully here: nothing pending and exactly
    /// `piece_size` bytes received.
    pub fn complete(&self) -> (r: bool)
        ensures
            r == (self.pending@.len() == 0 && self.received@.len() == self.piece_size),
    {
        self.pending.len() == 0 && self.received.len() == self.piece_size
    }
}

/// Block `b` of a piece of `size` bytes starts at offset `b * BLOCK_MAX` and
/// its `spec_block_size` bytes stay inside the piece.
pub proof fn lemma_block_bounds(size: int, b: int)
    requires
        1 <= size,
        0 <= b < spec_num_blocks(size),
    ensures
        1 <= spec_block_size(size, b) <= BLOCK_MAX,
        b * BLOCK_MAX + spec_block_size(size, b) <= size,
{
    let m = spec_num_blocks(size);
    let last = spec_block_size(size, m - 1);
    crate::torrent::lemma_piece_sizes(size, BLOCK_MAX as int);
    if b < m - 1 {
        vstd::arithmetic::mul::lemma_mul_inequality(b + 1, m - 1, BLOCK_MAX as int);
        assert((b + 1) * BLOCK_MAX == b * BLOCK_MAX + BLOCK_MAX) by (nonlinear_arith);
    }
}

/// The `Request` message asking peer for block `b` of piece `piece_index`.
pub fn build_block_request(piece_index: usize, b: usize, piece_size: usize) -> (m: Message)
    requires
        1 <= piece_size <= u32::MAX,
        piece_size + BLOCK_MAX <= usize::MAX,
        piece_index <= u32::MAX,
        b < spec_num_blocks(piece_size as int),
    ensures
        m.tag == MessageTag::Request,
        m.payload@ == spec_request_bytes(
            piece_index as u32,
            (b * BLOCK_MAX) as u32,
            spec_block_size(piece_size as int, b as int) as u32,
        ),
{
    proof {
        lemma_block_bounds(piece_size as int, b as int);
        assert(b * BLOCK_MAX >= 0) by (nonlinear_arith)
            requires
                b >= 0,
        ;
    }
    let nblocks = (piece_size + (BLOCK_MAX - 1)) / BLOCK_MAX;
    let block_size: usize = if b == nblocks - 1 {
        let md = piece_size % BLOCK_MAX;
        if md == 0 {
            BLOCK_MAX
        } else {
            md
        }
    } else {
        BLOCK_MAX
    };
    let begin: usize = b * BLOCK_MAX;
    let request = Request::new(piece_index as u32, begin as u32, block_size as u32);
    let payload = request.to_bytes();
    Message { tag: MessageTag::Request, payload }
}

/// Whether bit `i` is set in a peer bitfield: bit 0 is the high bit of the
/// first byte.
pub open spec fn spec_has_piece(bf: Seq<u8>, i: int) -> bool {
    &&& 0 <= i
    &&& i / 8 < bf.len()
    &&& ((bf[i / 8] as u32) >> ((7 - i % 8) as u32)) & 1 == 1
}

/// What handling one message asks the caller to note.
#[derive(Clone, Copy, Debug, PartialEq, Eq, Structural)]
pub enum SessionError {
    /// A `Piece` payload shorter than its eight-byte lead: the peer
    /// misbehaved and the current piece should be abandoned.
    BadPieceMessage,
}

impl Session {
    /// A session right after the handshake: initial flags, empty bitfield.
    pub fn new() -> (s: Self)
        ensures
            s.peer_state.am_choking == true,
            s.peer_state.am_interested == false,
            s.peer_state.peer_choking == true,
            s.peer_state.peer_interested == false,
            s.bitfield@.len() == 0,
    {
        Session { peer_state: PeerState::new(), bitfield: Vec::new() }
    }

    /// Note that our side declared interest (the caller sends the
    /// `Interested` message this returns).
    pub fn begin_interest(&mut self) -> (m: Message)
        ensures
            final(self).peer_state.am_interested == true,
            final(self).peer_state.am_choking == old(self).peer_state.am_choking,
            final(self).peer_state.peer_choking == old(self).peer_state.peer_choking,
            final(self).peer_state.peer_interested == old(self).peer_state.peer_interested,
            final(self).bitfield == old(self).bitfield,
            m.tag == MessageTag::Interested,
            m.payload@.len() == 0,
    {
        self.peer_state.am_interested = true;
        Message { tag: MessageTag::Interested, payload: Vec::new() }
    }

    /// Whether the peer's claimed bitfield has the bit for piece
    /// `piece_index`: bit set means the peer claims to have that piece. A
    /// bit beyond the bitfield counts as absent.
    pub fn peer_has_piece(&self, piece_index: usize) -> (r: bool)
        ensures
            r == spec_has_piece(self.bitfield@, piece_index as int),
    {
        let byte = piece_index / 8;
        if byte >= self.bitfield.len() {
            return false;
        }
        let bit: u32 = 7 - (piece_index % 8) as u32;
        ((self.bitfield[byte] as u32) >> bit) & 1 == 1
    }

    /// Dispatch one incoming message: `Choke`/`Unchoke` flip the peer's
    /// choke flag, `Interested`/`NotInterested` record the peer's interest,
    /// `Bitfield` replaces the claimed bitfield, a well-formed `Piece`
    /// appends its block bytes to the current piece's progress, and `Have`,
    /// `Request` and `Cancel` change nothing (the client only downloads).
    pub fn handle_message(&mut self, prog: &mut PieceProgress, msg: &Message) -> (r: Result<
        (),
        SessionError,
    >)
        ensures
            final(self).peer_state.am_choking == old(self).peer_state.am_choking,
            final(self).peer_state.am_interested == old(self).peer_state.am_interested,
            final(self).peer_state.peer_choking == (if msg.tag == MessageTag::Choke {
                true
            } else if msg.tag == MessageTag::Unchoke {
                false
            } else {
                old(self).peer_state.peer_choking
            }),
            final(self).peer_state.peer_interested == (if msg.tag == MessageTag::Interested {
                true
            } else if msg.tag == MessageTag::NotInterested {
                false
            } else {
                old(self).peer_state.peer_interested
            }),
            final(self).bitfield@ == (if msg.tag == MessageTag::Bitfield {
                msg.payload@
            } else {
                old(self).bitfield@
            }),
            final(prog).piece_index == old(prog).piece_index,
            final(prog).piece_size == old(prog).piece_size,
            final(prog).pending == old(prog).pending,
            msg.tag == MessageTag::Piece && msg.payload@.len() >= 8 ==> (r is Ok
                && final(prog).received@ == old(prog).received@ + msg.payload@.skip(8)),
            msg.tag == MessageTag::Piece && msg.payload@.len() < 8 ==> (r == Err::<
                (),
                SessionError,
            >(SessionError::BadPieceMessage) && final(prog).received == old(prog).received),
            msg.tag != MessageTag::Piece ==> (r is Ok
                && final(prog).received == old(prog).received),
    {
        match msg.tag {
            MessageTag::Choke => {
                self.peer_state.peer_choking = true;
                Ok(())
            },
            MessageTag::Unchoke => {
                self.peer_state.peer_choking = false;
                Ok(())
            },
            MessageTag::Interested => {
                self.peer_state.peer_interested = true;
                Ok(())
            },
            MessageTag::NotInterested => {
                self.peer_state.peer_interested = false;
                Ok(())
            },
            MessageTag::Have => Ok(()),
            MessageTag::Bitfield => {
                let mut bf: Vec<u8> = Vec::new();
                let mut i: usize = 0;
                while i < msg.payload.len()
                    invariant
                        i <= msg.payload@.len(),
                        bf@ == msg.payload@.subrange(0, i as int),
                    decreases msg.payload@.len() - i,
                {
                    let b = msg.payload[i];
                    bf.push(b);
                    i = i + 1;
                    assert(bf@ =~= msg.payload@.subrange(0, i as int));
                }
                assert(bf@ =~= msg.payload@);
                self.bitfield = bf;
                Ok(())
            },
            MessageTag::Request => Ok(()),
            MessageTag::Piece => {
                match Piece::ref_from_bytes(&msg.payload) {
                    Some(piece) => {
                        let block = piece.block();
                        let mut k: usize = 0;
                        let ghost before = prog.received@;
                        while k < block.len()
                            invariant
                                k <= block@.len(),
                                prog.received@ == before + block@.subrange(0, k as int),
                                prog.piece_index == old(prog).piece_index,
                                prog.piece_size == old(prog).piece_size,
                                prog.pending == old(prog).pending,
                            decreases block@.len() - k,
                        {
                            let b = block[k];
                            prog.received.push(b);
                            k = k + 1;
                            assert(prog.received@ =~= before + block@.subrange(0, k as int));
                        }
                        assert(block@.subrange(0, block@.len() as int) =~= block@);
                        Ok(())
                    },
                    None => Err(SessionError::BadPieceMessage),
                }
            },
            MessageTag::Cancel => Ok(()),
        }
    }
}

/// The coordinator's decision once a piece's bytes are all here: a piece
/// whose digest matches is handed to the assembler; one whose digest (or
/// size) does not match is returned to the work queue for another attempt.
/// Returns whether the piece was accepted.
pub fn process_downloaded_piece(
    assembler: &mut Assembler,
    queue: &mut WorkQueue,
    piece_index: usize,
    data: Vec<u8>,
) -> (accepted: bool)
    requires
        old(assembler).wf(),
    ensures
        final(assembler).wf(),
        final(assembler).plength() == old(assembler).plength(),
        final(assembler).total() == old(assembler).total(),
        final(assembler).hashes() == old(assembler).hashes(),
        accepted == (piece_index < old(assembler).num_pieces() && data@.len()
            == crate::torrent::spec_piece_size(
            old(assembler).total(),
            old(assembler).plength(),
            old(assembler).num_pieces(),
            piece_index as int,
        ) && crate::hashing::spec_sha1(data@) == old(assembler).hashes()[piece_index as int]),
        accepted ==> final(queue)@ == old(queue)@ && (old(assembler).pieces()[piece_index as int]
            is None ==> final(assembler).pieces() == old(assembler).pieces().update(
            piece_index as int,
            Some(data@),
        )) && (old(assembler).pieces()[piece_index as int] is Some ==> final(assembler).pieces() == old(
            assembler,
        ).pieces()),
        !accepted ==> final(queue)@ == old(queue)@.push(piece_index) && final(queue)@.contains(
            piece_index,
        ) && final(assembler).pieces() == old(assembler).pieces(),
{
    let ok = assembler.accept(piece_index, data);
    if !ok {
        queue.return_piece(piece_index);
    }
    ok
}

} // verus!
