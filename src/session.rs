//! The per-peer session: what to do with each frame that a peer sends and each
//! block index that the work queue hands out, while the session takes part in
//! downloading one piece. The caller performs the I/O and feeds the results back.

use vstd::prelude::*;
use crate::peers::{bit_of, Bitfield, Message, MessageTag, Piece, Request};
use crate::wire::{be32, read_be32};

verus! {

/// The length of block `b` of a piece of `size` bytes cut into blocks of `bs`
/// bytes: block `b` covers `[b * bs, min((b + 1) * bs, size))`.
pub open spec fn block_len(size: int, bs: int, b: int) -> int {
    if (b + 1) * bs <= size {
        bs
    } else {
        size - b * bs
    }
}

/// The number of blocks of a piece of `size` bytes: `size / bs`, rounded up.
pub open spec fn blocks_of(size: int, bs: int) -> int {
    (size + bs - 1) / bs
}

pub(crate) proof fn lemma_block_bounds(size: int, bs: int, b: int)
    requires
        0 < bs,
        0 < size,
        0 <= b < blocks_of(size, bs),
    ensures
        b * bs < size,
        0 < block_len(size, bs, b) <= bs,
        b * bs + block_len(size, bs, b) <= size,
{
    assert(b * bs < size) by (nonlinear_arith)
        requires
            0 < bs,
            0 < size,
            0 <= b,
            b < (size + bs - 1) / bs,
    {
        assert(b + 1 <= (size + bs - 1) / bs);
        assert((b + 1) * bs <= ((size + bs - 1) / bs) * bs);
        assert(((size + bs - 1) / bs) * bs <= size + bs - 1);
    }
    assert((b + 1) * bs == b * bs + bs) by (nonlinear_arith);
}

/// Where a participation stands.
#[derive(Debug, Clone, Copy, PartialEq, Eq, Structural)]
pub enum Phase {
    /// Choked: waiting for Unchoke.
    AwaitUnchoke,
    /// Unchoked with nothing outstanding: the next block comes from the work queue.
    Ready,
    /// The request for `block` is out: waiting for its Piece.
    AwaitBlock { block: usize },
    /// The work queue is closed: the participation is over.
    Done,
}

/// What the session needs next.
#[derive(Debug, Clone, Copy, PartialEq, Eq, Structural)]
pub enum Want {
    /// The next frame from the peer.
    Frame,
    /// The next block index from the work queue (`None` once it is closed).
    Work,
    /// Nothing: the participation returned cleanly.
    Finished,
}

#[derive(Debug, Clone, Copy, PartialEq, Eq, Structural)]
pub enum SessionError {
    /// The first frame after the handshake was not a Bitfield.
    ExpectedBitfield,
    /// A Bitfield arrived after the first frame.
    UnexpectedBitfield,
    /// Unchoke arrived while unchoked.
    UnexpectedUnchoke,
    /// A frame's payload does not have the layout its tag calls for.
    Malformed { tag: MessageTag },
    /// The requested block came back with another length.
    WrongBlockLength { expected: usize, got: usize },
    /// The work queue handed out a block index that the piece does not have.
    NoSuchBlock { block: usize },
}

/// What the caller is to do after an event.
#[derive(Debug)]
pub enum Output {
    Nothing,
    /// Send this message to the peer.
    Send(Message),
    /// Hand this block to the piece's completion queue.
    Forward(Piece),
    /// Put this block index back on the work queue.
    Requeue(usize),
}

/// What a frame does to a participation.
#[derive(Debug, Clone, Copy, PartialEq, Eq, Structural)]
pub enum Reaction {
    /// Dropped: nothing changes.
    Ignore,
    /// The peer unchoked us.
    Unchoke,
    /// The peer choked us: an outstanding block goes back on the work queue.
    Choke,
    /// The peer now has `piece`.
    Have { piece: u32 },
    /// The awaited block arrived and is handed on.
    Deliver,
    /// The session cannot go on.
    Fail(SessionError),
}

/// The per-connection state that outlives a piece: what the peer advertises,
/// and whether it chokes us.
#[derive(Debug)]
pub struct PeerState {
    pub bitfield: Bitfield,
    pub choked: bool,
}

impl PeerState {
    /// The state after the first frame that follows the handshake, which
    /// must be a Bitfield: its payload is what the peer advertises, and the
    /// peer chokes us until it says otherwise.
    pub fn from_first_frame(msg: Message) -> (r: Result<PeerState, SessionError>)
        ensures
            msg.tag == MessageTag::Bitfield ==> (r matches Ok(s) && s.bitfield@ == msg.payload@
                && s.choked),
            msg.tag != MessageTag::Bitfield ==> r == Err::<PeerState, SessionError>(
                SessionError::ExpectedBitfield,
            ),
    {
        match msg.tag {
            MessageTag::Bitfield => Ok(PeerState { bitfield: Bitfield::new(msg.payload), choked: true }),
            _ => Err(SessionError::ExpectedBitfield),
        }
    }

    pub fn has_piece(&self, piece_i: usize) -> (r: bool)
        ensures
            r == bit_of(self.bitfield@, piece_i as int),
    {
        self.bitfield.has_piece(piece_i)
    }
}

/// One session's part in downloading one piece.
#[derive(Debug, Clone, Copy, PartialEq, Eq, Structural)]
pub struct Participation {
    pub piece_i: usize,
    pub piece_size: usize,
    pub block_size: usize,
    pub nblocks: usize,
    pub phase: Phase,
}

/// The reaction to a frame with `tag` and `payload`, given where the
/// participation stands and whether the peer chokes us.
pub open spec fn reaction(p: Participation, choked: bool, tag: MessageTag, payload: Seq<u8>) -> Reaction {
    if p.phase is Done {
        Reaction::Ignore
    } else {
        match tag {
            MessageTag::Bitfield => Reaction::Fail(SessionError::UnexpectedBitfield),
            MessageTag::Interested | MessageTag::NotInterested | MessageTag::Request
            | MessageTag::Cancel => Reaction::Ignore,
            MessageTag::Have => if payload.len() == 4 {
                Reaction::Have { piece: be32(payload) as u32 }
            } else {
                Reaction::Fail(SessionError::Malformed { tag })
            },
            MessageTag::Unchoke => if payload.len() != 0 {
                Reaction::Fail(SessionError::Malformed { tag })
            } else if choked {
                Reaction::Unchoke
            } else {
                Reaction::Fail(SessionError::UnexpectedUnchoke)
            },
            MessageTag::Choke => if payload.len() != 0 {
                Reaction::Fail(SessionError::Malformed { tag })
            } else if choked {
                Reaction::Ignore
            } else {
                Reaction::Choke
            },
            MessageTag::Piece => match p.phase {
                Phase::AwaitBlock { block } => if payload.len() < 8 {
                    Reaction::Fail(SessionError::Malformed { tag })
                } else if be32(payload.subrange(0, 4)) != p.piece_i || be32(payload.subrange(4, 8))
                    != block * p.block_size {
                    Reaction::Ignore
                } else if payload.len() - 8 != block_len(p.piece_size as int, p.block_size as int, block as int) {
                    Reaction::Fail(
                        SessionError::WrongBlockLength {
                            expected: block_len(p.piece_size as int, p.block_size as int, block as int) as usize,
                            got: (payload.len() - 8) as usize,
                        },
                    )
                } else {
                    Reaction::Deliver
                },
                _ => Reaction::Ignore,
            },
        }
    }
}

/// Where the participation stands after a reaction.
pub open spec fn phase_after(p: Participation, r: Reaction) -> Phase {
    match r {
        Reaction::Unchoke => Phase::Ready,
        Reaction::Choke => Phase::AwaitUnchoke,
        Reaction::Deliver => Phase::Ready,
        _ => p.phase,
    }
}

/// Whether the peer chokes us after a reaction.
pub open spec fn choked_after(choked: bool, r: Reaction) -> bool {
    match r {
        Reaction::Unchoke => false,
        Reaction::Choke => true,
        _ => choked,
    }
}

/// The request for block `b`.
pub open spec fn request_for(p: Participation, b: int) -> Request {
    Request {
        index: p.piece_i as u32,
        begin: (b * p.block_size) as u32,
        length: block_len(p.piece_size as int, p.block_size as int, b) as u32,
    }
}

/// Where the participation stands after the work queue hands out `w`.
pub open spec fn phase_after_work(p: Participation, w: Option<usize>) -> Phase {
    match p.phase {
        Phase::Ready => match w {
            Some(b) => if b < p.nblocks {
                Phase::AwaitBlock { block: b }
            } else {
                p.phase
            },
            None => Phase::Done,
        },
        _ => p.phase,
    }
}

/// What the session needs in a phase.
pub open spec fn want_of(ph: Phase) -> Want {
    match ph {
        Phase::AwaitUnchoke | Phase::AwaitBlock { .. } => Want::Frame,
        Phase::Ready => Want::Work,
        Phase::Done => Want::Finished,
    }
}

impl Participation {
    /// The participation's invariant: its sizes fit the wire's 32-bit fields,
    /// the block count is the piece size over the block size rounded up, an
    /// awaited block exists, and it waits for Unchoke exactly while choked.
    pub open spec fn wf(&self, choked: bool) -> bool {
        &&& 0 < self.block_size
        &&& 0 < self.piece_size <= u32::MAX
        &&& self.piece_i <= u32::MAX
        &&& self.nblocks == blocks_of(self.piece_size as int, self.block_size as int)
        &&& (self.phase matches Phase::AwaitBlock { block } ==> block < self.nblocks)
        &&& (!(self.phase is Done) ==> (self.phase is AwaitUnchoke <==> choked))
    }

    /// Starts taking part in piece `piece_i` of `piece_size` bytes, cut into
    /// blocks of `block_size`: the Interested message to send comes back.
    pub fn new(piece_i: usize, piece_size: usize, block_size: usize, state: &PeerState) -> (r: (
        Participation,
        Message,
    ))
        requires
            0 < block_size,
            0 < piece_size <= u32::MAX,
            piece_i <= u32::MAX,
        ensures
            r.0.piece_i == piece_i,
            r.0.piece_size == piece_size,
            r.0.block_size == block_size,
            r.0.phase == (if state.choked {
                Phase::AwaitUnchoke
            } else {
                Phase::Ready
            }),
            r.0.wf(state.choked),
            r.1@ == (MessageTag::Interested, Seq::<u8>::empty()),
    {
        let q = piece_size / block_size;
        let nblocks = if piece_size % block_size == 0 {
            q
        } else {
            assert(q < piece_size) by (nonlinear_arith)
                requires
                    0 < block_size,
                    0 < piece_size,
                    q == piece_size / block_size,
                    piece_size % block_size != 0,
            ;
            q + 1
        };
        assert(nblocks == blocks_of(piece_size as int, block_size as int)) by (nonlinear_arith)
            requires
                0 < block_size,
                q == piece_size / block_size,
                piece_size % block_size == 0 ==> nblocks == q,
                piece_size % block_size != 0 ==> nblocks == q + 1,
        {
        }
        let phase = if state.choked {
            Phase::AwaitUnchoke
        } else {
            Phase::Ready
        };
        let p = Participation { piece_i, piece_size, block_size, nblocks, phase };
        (p, Message { tag: MessageTag::Interested, payload: Vec::new() })
    }

    pub fn wants(&self) -> (r: Want)
        ensures
            r == want_of(self.phase),
    {
        match self.phase {
            Phase::AwaitUnchoke => Want::Frame,
            Phase::AwaitBlock { .. } => Want::Frame,
            Phase::Ready => Want::Work,
            Phase::Done => Want::Finished,
        }
    }

    /// The block whose request is out, if any: it goes back on the work queue
    /// when the session ends before the block arrives.
    pub fn outstanding(&self) -> (r: Option<usize>)
        ensures
            match self.phase {
                Phase::AwaitBlock { block } => r == Some(block),
                _ => r is None,
            },
    {
        match self.phase {
            Phase::AwaitBlock { block } => Some(block),
            _ => None,
        }
    }

    /// The length of block `b`.
    pub fn block_length(&self, b: usize) -> (r: usize)
        requires
            self.wf(false),
            b < self.nblocks,
        ensures
            r == block_len(self.piece_size as int, self.block_size as int, b as int),
            b * self.block_size + r <= self.piece_size,
    {
        proof {
            lemma_block_bounds(self.piece_size as int, self.block_size as int, b as int);
        }
        let start = b * self.block_size;
        if self.piece_size - start >= self.block_size {
            self.block_size
        } else {
            self.piece_size - start
        }
    }

    /// Handles the block index that the work queue handed out (`None`: the
    /// queue is closed). When ready, a block of the piece is requested and
    /// awaited, and a closed queue ends the participation. A block that
    /// arrives at any other time goes back on the queue.
    pub fn on_work(&mut self, state: &PeerState, w: Option<usize>) -> (r: Result<Output, SessionError>)
        requires
            old(self).wf(state.choked),
        ensures
            final(self).wf(state.choked),
            final(self).phase == phase_after_work(*old(self), w),
            final(self).piece_i == old(self).piece_i,
            final(self).piece_size == old(self).piece_size,
            final(self).block_size == old(self).block_size,
            final(self).nblocks == old(self).nblocks,
            match (old(self).phase, w) {
                (Phase::Ready, Some(b)) => if b < old(self).nblocks {
                    r matches Ok(Output::Send(m)) && m.tag == MessageTag::Request && m.payload@
                        == request_for(*old(self), b as int).spec_bytes()
                } else {
                    r == Err::<Output, SessionError>(SessionError::NoSuchBlock { block: b })
                },
                (Phase::Ready, None) => r matches Ok(Output::Nothing),
                (_, Some(b)) => r matches Ok(Output::Requeue(x)) && x == b,
                (_, None) => r matches Ok(Output::Nothing),
            },
    {
        match self.phase {
            Phase::Ready => match w {
                Some(b) => {
                    if b >= self.nblocks {
                        return Err(SessionError::NoSuchBlock { block: b });
                    }
                    let len = self.block_length(b);
                    let req = Request::new(self.piece_i as u32, (b * self.block_size) as u32, len as u32);
                    self.phase = Phase::AwaitBlock { block: b };
                    Ok(Output::Send(Message { tag: MessageTag::Request, payload: req.to_bytes() }))
                },
                None => {
                    self.phase = Phase::Done;
                    Ok(Output::Nothing)
                },
            },
            _ => match w {
                Some(b) => Ok(Output::Requeue(b)),
                None => Ok(Output::Nothing),
            },
        }
    }

    /// Handles a frame from the peer, as `reaction` says.
    pub fn on_frame(&mut self, state: &mut PeerState, msg: Message) -> (r: Result<Output, SessionError>)
        requires
            old(self).wf(old(state).choked),
        ensures
            ({
                let re = reaction(*old(self), old(state).choked, msg.tag, msg.payload@);
                &&& final(self).phase == phase_after(*old(self), re)
                &&& final(self).piece_i == old(self).piece_i
                &&& final(self).piece_size == old(self).piece_size
                &&& final(self).block_size == old(self).block_size
                &&& final(self).nblocks == old(self).nblocks
                &&& final(state).choked == choked_after(old(state).choked, re)
                &&& (re is Fail || final(self).wf(final(state).choked))
                &&& match re {
                    Reaction::Have { piece } => {
                        &&& bit_of(final(state).bitfield@, piece as int)
                        &&& forall|j: int|
                            j != piece ==> bit_of(final(state).bitfield@, j) == bit_of(
                                old(state).bitfield@,
                                j,
                            )
                    },
                    _ => final(state).bitfield@ == old(state).bitfield@,
                }
                &&& match re {
                    Reaction::Fail(e) => r == Err::<Output, SessionError>(e),
                    Reaction::Choke => match old(self).phase {
                        Phase::AwaitBlock { block } => r matches Ok(Output::Requeue(b)) && b == block,
                        _ => r matches Ok(Output::Nothing),
                    },
                    Reaction::Deliver => r matches Ok(Output::Forward(pc)) && pc.index == be32(
                        msg.payload@.subrange(0, 4),
                    ) && pc.begin == be32(msg.payload@.subrange(4, 8)) && pc.block@ == msg.payload@.skip(
                        8,
                    ),
                    _ => r matches Ok(Output::Nothing),
                }
            }),
    {
        if self.phase == Phase::Done {
            return Ok(Output::Nothing);
        }
        match msg.tag {
            MessageTag::Bitfield => Err(SessionError::UnexpectedBitfield),
            MessageTag::Interested | MessageTag::NotInterested | MessageTag::Request
            | MessageTag::Cancel => Ok(Output::Nothing),
            MessageTag::Have => {
                if msg.payload.len() != 4 {
                    return Err(SessionError::Malformed { tag: msg.tag });
                }
                let piece = read_be32(msg.payload[0], msg.payload[1], msg.payload[2], msg.payload[3]);
                assert(msg.payload@ =~= seq![msg.payload@[0], msg.payload@[1], msg.payload@[2], msg.payload@[3]]);
                state.bitfield.set_piece(piece as usize);
                Ok(Output::Nothing)
            },
            MessageTag::Unchoke => {
                if msg.payload.len() != 0 {
                    return Err(SessionError::Malformed { tag: msg.tag });
                }
                if !state.choked {
                    return Err(SessionError::UnexpectedUnchoke);
                }
                state.choked = false;
                self.phase = Phase::Ready;
                Ok(Output::Nothing)
            },
            MessageTag::Choke => {
                if msg.payload.len() != 0 {
                    return Err(SessionError::Malformed { tag: msg.tag });
                }
                if state.choked {
                    return Ok(Output::Nothing);
                }
                state.choked = true;
                let out = match self.phase {
                    Phase::AwaitBlock { block } => Output::Requeue(block),
                    _ => Output::Nothing,
                };
                self.phase = Phase::AwaitUnchoke;
                Ok(out)
            },
            MessageTag::Piece => match self.phase {
                Phase::AwaitBlock { block } => {
                    let pc = match Piece::ref_from_bytes(msg.payload.as_slice()) {
                        Some(pc) => pc,
                        None => {
                            return Err(SessionError::Malformed { tag: msg.tag });
                        },
                    };
                    proof {
                        lemma_block_bounds(self.piece_size as int, self.block_size as int, block as int);
                    }
                    if pc.index as usize != self.piece_i || pc.begin as usize != block * self.block_size {
                        return Ok(Output::Nothing);
                    }
                    let expected = self.block_length(block);
                    if pc.block.len() != expected {
                        return Err(SessionError::WrongBlockLength { expected, got: pc.block.len() });
                    }
                    self.phase = Phase::Ready;
                    Ok(Output::Forward(pc))
                },
                _ => Ok(Output::Nothing),
            },
        }
    }
}

/// A Choke while a block is awaited puts that block back on the work queue
/// and waits for Unchoke; after the Unchoke the session asks for work again,
/// and when the work queue hands out the same block, the same request goes out.
pub proof fn lemma_choke_requeues_block(p: Participation, block: usize)
    requires
        p.wf(false),
        p.phase == (Phase::AwaitBlock { block }),
    ensures
        ({
            let choke = reaction(p, false, MessageTag::Choke, Seq::empty());
            let p1 = Participation { phase: phase_after(p, choke), ..p };
            let unchoke = reaction(p1, choked_after(false, choke), MessageTag::Unchoke, Seq::empty());
            let p2 = Participation { phase: phase_after(p1, unchoke), ..p1 };
            &&& choke == Reaction::Choke
            &&& p1.phase == Phase::AwaitUnchoke
            &&& p1.wf(true)
            &&& unchoke == Reaction::Unchoke
            &&& p2.phase == Phase::Ready
            &&& p2.wf(false)
            &&& phase_after_work(p2, Some(block)) == (Phase::AwaitBlock { block })
            &&& request_for(p2, block as int) == request_for(p, block as int)
        }),
{
}

/// A Piece frame for another piece or another offset than the awaited block
/// is dropped: the participation and the peer state stay as they were, and
/// nothing is handed on.
pub proof fn lemma_stale_piece_ignored(p: Participation, block: usize, payload: Seq<u8>)
    requires
        p.wf(false),
        p.phase == (Phase::AwaitBlock { block }),
        payload.len() >= 8,
        be32(payload.subrange(0, 4)) != p.piece_i || be32(payload.subrange(4, 8)) != block
            * p.block_size,
    ensures
        reaction(p, false, MessageTag::Piece, payload) == Reaction::Ignore,
        phase_after(p, Reaction::Ignore) == p.phase,
        choked_after(false, Reaction::Ignore) == false,
{
}

} // verus!
