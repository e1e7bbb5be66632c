//! The state machine of one peer session's work loop. The session owns the
//! remote bitfield and a phase: waiting to be unchoked, pulling block work,
//! or awaiting the one outstanding requested block. Transitions consume one
//! message or one work item and say exactly what must be sent, requeued or
//! delivered; the transport itself lives with the caller.
//!
//! Two scheduling rules are carried in the contracts here. At most one
//! request is outstanding per session: only `next_block` emits a request,
//! it demands that none is outstanding, and it leaves exactly one. And a
//! choke met mid-request hands back exactly the outstanding block index,
//! once, before the session waits to be unchoked again.

use vstd::prelude::*;
use crate::BLOCK_SIZE;
use crate::bitfield::Bitfield;
use crate::piece::{lemma_block_bounds, spec_block_size, spec_n_blocks};
use crate::wire::{read_u32_be, spec_u32_from_be, Message, MessageType, PieceRequest, PieceResponse};

verus! {

/// Why a session must be retired; each of these is fatal for the session
/// (never for the download as a whole).
#[derive(Clone, Copy, Debug, PartialEq, Eq, Structural)]
pub enum SessionError {
    /// The remote choked us while we were already choked.
    DoubleChoke,
    /// The remote unchoked us while we were already unchoked.
    DoubleUnchoke,
    /// An Unchoke message carried a payload.
    UnchokePayload,
    /// A Choke message carried a payload.
    ChokePayload,
    /// A Bitfield message arrived after the handshake exchange.
    BitfieldAfterHandshake,
    /// A Have message was malformed or named a piece out of range.
    BadHave,
    /// A Piece payload was shorter than its eight-byte lead.
    ShortPiece,
    /// The matching block arrived with the wrong number of bytes.
    WrongBlockLen,
    /// The session was asked to work on a piece its remote does not have.
    MissingPiece,
}

/// Where the work loop stands: waiting to be unchoked, ready to pull a
/// block index, or holding exactly one outstanding request.
#[derive(Clone, Copy, Debug, PartialEq, Eq, Structural)]
pub enum SessionPhase {
    WaitUnchoke,
    PullWork,
    AwaitPiece { block_i: usize },
}

/// What handling one message while a request is outstanding amounts to.
#[derive(Debug)]
pub enum AwaitStep {
    /// The message asked nothing of us.
    Ignored,
    /// We were choked: this block index goes back on the shared queue.
    Requeued(usize),
    /// The matching block arrived and goes to the done channel.
    Received(PieceResponse),
}

/// One peer session after a completed handshake.
pub struct PeerSession {
    pub bitfield: Bitfield,
    pub interested: bool,
    pub phase: SessionPhase,
    pub piece_i: usize,
    pub piece_size: usize,
    pub n_blocks: usize,
}

/// The piece index a Have payload names.
pub open spec fn spec_have_index(payload: Seq<u8>) -> int {
    spec_u32_from_be(payload[0], payload[1], payload[2], payload[3]) as int
}

/// A Have payload the session accepts: four bytes naming a piece inside
/// the remote bitfield's index space.
pub open spec fn spec_have_ok(s: PeerSession, payload: Seq<u8>) -> bool {
    payload.len() == 4 && spec_have_index(payload) < s.bitfield.spec_n_bits()
}

/// The new session equals the old one with the named bit set.
pub open spec fn spec_have_applied(a: PeerSession, b: PeerSession, payload: Seq<u8>) -> bool {
    &&& b.bitfield.spec_n_bits() == a.bitfield.spec_n_bits()
    &&& forall|j: int|
        b.bitfield.spec_has(j) == (j == spec_have_index(payload) || a.bitfield.spec_has(j))
}

/// All session fields but the bitfield agree.
pub open spec fn spec_same_but_bitfield(a: PeerSession, b: PeerSession) -> bool {
    &&& a.interested == b.interested
    &&& a.phase == b.phase
    &&& a.piece_i == b.piece_i
    &&& a.piece_size == b.piece_size
    &&& a.n_blocks == b.n_blocks
}

/// All session fields but the phase agree.
pub open spec fn spec_same_but_phase(a: PeerSession, b: PeerSession) -> bool {
    &&& a.bitfield == b.bitfield
    &&& a.interested == b.interested
    &&& a.piece_i == b.piece_i
    &&& a.piece_size == b.piece_size
    &&& a.n_blocks == b.n_blocks
}

/// The piece index a Piece payload leads with.
pub open spec fn spec_resp_index(p: Seq<u8>) -> int {
    spec_u32_from_be(p[0], p[1], p[2], p[3]) as int
}

/// The byte offset a Piece payload leads with.
pub open spec fn spec_resp_begin(p: Seq<u8>) -> int {
    spec_u32_from_be(p[4], p[5], p[6], p[7]) as int
}

/// The block bytes of a Piece payload.
pub open spec fn spec_resp_block(p: Seq<u8>) -> Seq<u8> {
    p.skip(8)
}

impl PeerSession {
    /// The session's invariant: a well-formed bitfield, piece geometry that
    /// fits the wire's 32-bit fields, a block count that matches the piece
    /// size, and an outstanding block index inside the piece.
    pub open spec fn wf(&self) -> bool {
        &&& self.bitfield.wf()
        &&& 1 <= self.piece_size <= u32::MAX
        &&& self.piece_i <= u32::MAX
        &&& self.n_blocks == spec_n_blocks(self.piece_size as int)
        &&& match self.phase {
            SessionPhase::AwaitPiece { block_i } => block_i < self.n_blocks,
            _ => true,
        }
    }

    /// The outstanding block index, or -1 when none is outstanding. At most
    /// one request is ever outstanding: the phase holds one index or none.
    pub open spec fn spec_outstanding(&self) -> int {
        match self.phase {
            SessionPhase::AwaitPiece { block_i } => block_i as int,
            _ => -1,
        }
    }

    /// A fresh session right after the handshake and bitfield exchange:
    /// choked, not yet interested, no piece assigned.
    pub fn new(bitfield: Bitfield) -> (r: PeerSession)
        requires
            bitfield.wf(),
        ensures
            r.wf(),
            r.bitfield == bitfield,
            !r.interested,
            r.phase == SessionPhase::WaitUnchoke,
    {
        PeerSession {
            bitfield,
            interested: false,
            phase: SessionPhase::WaitUnchoke,
            piece_i: 0,
            piece_size: 1,
            n_blocks: 1,
        }
    }

    /// Whether the remote advertises piece `piece_i`.
    pub fn has_piece(&self, piece_i: usize) -> (r: bool)
        ensures
            r == self.bitfield.spec_has(piece_i as int),
    {
        self.bitfield.has(piece_i)
    }

    /// The current phase of the work loop.
    pub fn current_phase(&self) -> (r: SessionPhase)
        ensures
            r == self.phase,
    {
        self.phase
    }

    /// Take up one piece's work: refuse it if the remote lacks the piece,
    /// else record the geometry. The result says whether an Interested
    /// message must be sent first (only on the session's first piece).
    pub fn begin_piece(&mut self, piece_i: usize, piece_size: usize, n_blocks: usize) -> (r:
        Result<bool, SessionError>)
        requires
            old(self).wf(),
            !(old(self).phase matches SessionPhase::AwaitPiece { .. }),
            1 <= piece_size <= u32::MAX,
            piece_i <= u32::MAX,
            n_blocks == spec_n_blocks(piece_size as int),
        ensures
            final(self).wf(),
            match r {
                Ok(send_interested) => old(self).bitfield.spec_has(piece_i as int)
                    && final(self).bitfield == old(self).bitfield && final(self).interested
                    && final(self).phase == old(self).phase && final(self).piece_i == piece_i
                    && final(self).piece_size == piece_size && final(self).n_blocks == n_blocks
                    && send_interested == !old(self).interested,
                Err(e) => e == SessionError::MissingPiece && !old(self).bitfield.spec_has(
                    piece_i as int,
                ) && *final(self) == *old(self),
            },
    {
        if !self.bitfield.has(piece_i) {
            return Err(SessionError::MissingPiece);
        }
        let send_interested: bool = !self.interested;
        self.interested = true;
        self.piece_i = piece_i;
        self.piece_size = piece_size;
        self.n_blocks = n_blocks;
        Ok(send_interested)
    }

    /// Apply a Have message to the remote bitfield.
    fn apply_have(&mut self, payload: &Vec<u8>) -> (r: Result<(), SessionError>)
        requires
            old(self).wf(),
        ensures
            final(self).wf(),
            spec_same_but_bitfield(*old(self), *final(self)),
            match r {
                Ok(()) => spec_have_ok(*old(self), payload@) && spec_have_applied(
                    *old(self),
                    *final(self),
                    payload@,
                ),
                Err(e) => e == SessionError::BadHave && !spec_have_ok(*old(self), payload@)
                    && *final(self) == *old(self),
            },
    {
        if payload.len() != 4 {
            return Err(SessionError::BadHave);
        }
        let idx32: u32 = read_u32_be(payload[0], payload[1], payload[2], payload[3]);
        let idx: usize = idx32 as usize;
        match self.bitfield.set(idx) {
            Ok(()) => Ok(()),
            Err(_) => Err(SessionError::BadHave),
        }
    }

    /// Handle one message while choked. Unchoke (with an empty payload)
    /// moves the session to pulling work; Have updates the bitfield; a
    /// repeated Choke or Bitfield, or a malformed message, is fatal; all
    /// else is ignored.
    pub fn on_message_waiting(&mut self, msg: &Message) -> (r: Result<(), SessionError>)
        requires
            old(self).wf(),
            old(self).phase == SessionPhase::WaitUnchoke,
        ensures
            final(self).wf(),
            match r {
                Ok(()) => match msg.typ {
                    MessageType::Unchoke => msg.payload@.len() == 0 && final(self).phase
                        == SessionPhase::PullWork && spec_same_but_phase(*old(self), *final(self)),
                    MessageType::Have => spec_have_ok(*old(self), msg.payload@)
                        && spec_have_applied(*old(self), *final(self), msg.payload@)
                        && spec_same_but_bitfield(*old(self), *final(self)),
                    MessageType::Interested | MessageType::NotInterested | MessageType::Request
                        | MessageType::Cancel | MessageType::Piece => *final(self) == *old(self),
                    _ => false,
                },
                Err(e) => *final(self) == *old(self) && match msg.typ {
                    MessageType::Choke => e == SessionError::DoubleChoke,
                    MessageType::Unchoke => e == SessionError::UnchokePayload && msg.payload@.len()
                        > 0,
                    MessageType::Bitfield => e == SessionError::BitfieldAfterHandshake,
                    MessageType::Have => e == SessionError::BadHave && !spec_have_ok(
                        *old(self),
                        msg.payload@,
                    ),
                    _ => false,
                },
            },
    {
        match msg.typ {
            MessageType::Choke => Err(SessionError::DoubleChoke),
            MessageType::Unchoke => {
                if msg.payload.len() == 0 {
                    self.phase = SessionPhase::PullWork;
                    Ok(())
                } else {
                    Err(SessionError::UnchokePayload)
                }
            },
            MessageType::Have => self.apply_have(&msg.payload),
            MessageType::Bitfield => Err(SessionError::BitfieldAfterHandshake),
            MessageType::Interested | MessageType::NotInterested | MessageType::Request
                | MessageType::Cancel | MessageType::Piece => Ok(()),
        }
    }

    /// Pull the next block of work. `None` means the shared queue is closed
    /// and drained: the session's part in this piece is done. A block index
    /// yields exactly one Request frame for it — and, since this demands
    /// that no request is outstanding and leaves exactly this one, a
    /// session never has two requests in flight.
    pub fn next_block(&mut self, job: Option<usize>) -> (r: Option<PieceRequest>)
        requires
            old(self).wf(),
            old(self).phase == SessionPhase::PullWork,
            job matches Some(j) ==> j < old(self).n_blocks,
        ensures
            final(self).wf(),
            spec_same_but_phase(*old(self), *final(self)),
            match job {
                None => r is None && *final(self) == *old(self),
                Some(j) => {
                    &&& r matches Some(req)
                    &&& (r matches Some(req) ==> req.spec_index() == old(self).piece_i
                        && req.spec_begin() == j * BLOCK_SIZE && req.spec_length()
                        == spec_block_size(old(self).piece_size as int, j as int))
                    &&& final(self).phase == (SessionPhase::AwaitPiece { block_i: j })
                    &&& final(self).spec_outstanding() == j
                },
            },
    {
        match job {
            None => None,
            Some(j) => {
                proof {
                    lemma_block_bounds(self.piece_size as int, j as int);
                }
                let block_size: usize = if j + 1 < self.n_blocks {
                    BLOCK_SIZE
                } else {
                    self.piece_size - (self.n_blocks - 1) * BLOCK_SIZE
                };
                let begin: usize = j * BLOCK_SIZE;
                let req = PieceRequest::new(self.piece_i as u32, begin as u32, block_size as u32);
                self.phase = SessionPhase::AwaitPiece { block_i: j };
                Some(req)
            },
        }
    }

    /// Handle one message while exactly one request is outstanding. A choke
    /// (with an empty payload) hands the outstanding block back, once, and
    /// returns the session to waiting; the matching Piece message of the
    /// right length completes the block; an unrelated Piece is discarded;
    /// Unchoke, Bitfield and malformed messages are fatal; the rest is
    /// ignored.
    pub fn on_message_awaiting(&mut self, msg: &Message) -> (r: Result<AwaitStep, SessionError>)
        requires
            old(self).wf(),
            old(self).phase matches SessionPhase::AwaitPiece { .. },
        ensures
            final(self).wf(),
            match r {
                Ok(step) => match msg.typ {
                    MessageType::Choke => msg.payload@.len() == 0 && (step matches
                        AwaitStep::Requeued(b) && b == old(self).spec_outstanding())
                        && final(self).phase == SessionPhase::WaitUnchoke && spec_same_but_phase(
                        *old(self),
                        *final(self),
                    ),
                    MessageType::Have => (step matches AwaitStep::Ignored) && spec_have_ok(
                        *old(self),
                        msg.payload@,
                    ) && spec_have_applied(*old(self), *final(self), msg.payload@)
                        && spec_same_but_bitfield(*old(self), *final(self)),
                    MessageType::Interested | MessageType::NotInterested | MessageType::Request
                        | MessageType::Cancel => (step matches AwaitStep::Ignored) && *final(self)
                        == *old(self),
                    MessageType::Piece => msg.payload@.len() >= 8 && (if spec_resp_index(
                        msg.payload@,
                    ) == old(self).piece_i && spec_resp_begin(msg.payload@)
                        == old(self).spec_outstanding() * BLOCK_SIZE {
                        &&& (step matches AwaitStep::Received(resp)
                            && resp.spec_index() == old(self).piece_i
                            && resp.spec_begin() == old(self).spec_outstanding() * BLOCK_SIZE
                            && resp.spec_block() == spec_resp_block(msg.payload@))
                        &&& spec_resp_block(msg.payload@).len() == spec_block_size(
                            old(self).piece_size as int,
                            old(self).spec_outstanding(),
                        )
                        &&& final(self).phase == SessionPhase::PullWork
                        &&& spec_same_but_phase(*old(self), *final(self))
                    } else {
                        (step matches AwaitStep::Ignored) && *final(self) == *old(self)
                    }),
                    _ => false,
                },
                Err(e) => *final(self) == *old(self) && match msg.typ {
                    MessageType::Choke => e == SessionError::ChokePayload && msg.payload@.len()
                        > 0,
                    MessageType::Unchoke => e == SessionError::DoubleUnchoke,
                    MessageType::Bitfield => e == SessionError::BitfieldAfterHandshake,
                    MessageType::Have => e == SessionError::BadHave && !spec_have_ok(
                        *old(self),
                        msg.payload@,
                    ),
                    MessageType::Piece => (msg.payload@.len() < 8 && e == SessionError::ShortPiece)
                        || (msg.payload@.len() >= 8 && spec_resp_index(msg.payload@)
                        == old(self).piece_i && spec_resp_begin(msg.payload@) == old(self).spec_outstanding()
                        * BLOCK_SIZE && spec_resp_block(msg.payload@).len() != spec_block_size(
                        old(self).piece_size as int,
                        old(self).spec_outstanding(),
                    ) && e == SessionError::WrongBlockLen),
                    _ => false,
                },
            },
    {
        let j: usize = match self.phase {
            SessionPhase::AwaitPiece { block_i } => block_i,
            _ => {
                proof {
                    assert(false);
                }
                0
            },
        };
        match msg.typ {
            MessageType::Choke => {
                if msg.payload.len() == 0 {
                    self.phase = SessionPhase::WaitUnchoke;
                    Ok(AwaitStep::Requeued(j))
                } else {
                    Err(SessionError::ChokePayload)
                }
            },
            MessageType::Unchoke => Err(SessionError::DoubleUnchoke),
            MessageType::Bitfield => Err(SessionError::BitfieldAfterHandshake),
            MessageType::Have => {
                match self.apply_have(&msg.payload) {
                    Ok(()) => Ok(AwaitStep::Ignored),
                    Err(e) => Err(e),
                }
            },
            MessageType::Interested | MessageType::NotInterested | MessageType::Request
                | MessageType::Cancel => Ok(AwaitStep::Ignored),
            MessageType::Piece => {
                match PieceResponse::from_bytes(&msg.payload) {
                    None => Err(SessionError::ShortPiece),
                    Some(resp) => {
                        proof {
                            lemma_block_bounds(self.piece_size as int, j as int);
                        }
                        let begin: usize = j * BLOCK_SIZE;
                        if resp.index() != self.piece_i as u32 || resp.begin() != begin as u32 {
                            Ok(AwaitStep::Ignored)
                        } else {
                            let expected: usize = if j + 1 < self.n_blocks {
                                BLOCK_SIZE
                            } else {
                                self.piece_size - (self.n_blocks - 1) * BLOCK_SIZE
                            };
                            if resp.block().len() != expected {
                                Err(SessionError::WrongBlockLen)
                            } else {
                                self.phase = SessionPhase::PullWork;
                                Ok(AwaitStep::Received(resp))
                            }
                        }
                    },
                }
            },
        }
    }
}

} // verus!
