//! Piece descriptors and the order in which pieces are fetched: rarest first,
//! ties broken by index.

use vstd::prelude::*;
use std::cmp::Ordering;
use crate::peers::bit_of;
use crate::session::PeerState;
use crate::torrent::{total_length, Torrent};

verus! {

/// The length of piece `i` of `count` pieces of `plength` bytes over content
/// of `total` bytes: every piece but the last is full, and the last holds the
/// rest (a full piece where nothing is left over).
pub open spec fn piece_len_of(i: int, count: int, total: int, plength: int) -> int {
    if i == count - 1 && total % plength != 0 {
        total % plength
    } else {
        plength
    }
}

/// What the download knows of one piece.
#[derive(Debug)]
pub struct PieceInfo {
    /// The indices of the peers that have the piece, ascending.
    pub peers: Vec<usize>,
    pub piece_i: usize,
    pub length: usize,
    /// The digest that the piece's bytes must have.
    pub hash: [u8; 20],
}

/// Whether piece `a` is fetched before piece `b`: it has fewer candidate
/// peers, or as many and a lower index.
pub open spec fn precedes(a: PieceInfo, b: PieceInfo) -> bool {
    a.peers@.len() < b.peers@.len() || (a.peers@.len() == b.peers@.len() && a.piece_i < b.piece_i)
}

/// The order of two pieces as `precedes` gives it.
pub open spec fn priority_order(a: PieceInfo, b: PieceInfo) -> Ordering {
    if precedes(a, b) {
        Ordering::Less
    } else if precedes(b, a) {
        Ordering::Greater
    } else {
        Ordering::Equal
    }
}

/// The peers, by index, whose state advertises piece `i`, in ascending order.
pub open spec fn holders_ok(r: Seq<usize>, peers: Seq<PeerState>, i: int) -> bool {
    &&& forall|k: int| 0 <= k < r.len() ==> r[k] < peers.len() && bit_of(peers[r[k] as int].bitfield@, i)
    &&& forall|j: int, k: int| 0 <= j < k < r.len() ==> r[j] < r[k]
    &&& forall|m: int| 0 <= m < peers.len() && bit_of(peers[m].bitfield@, i) ==> r.contains(m as usize)
}

impl PieceInfo {
    /// The descriptor of piece `piece_i` of `t`, with the peers among `peers`
    /// that have it.
    pub fn new(piece_i: usize, t: &Torrent, peers: &[PeerState]) -> (r: Self)
        requires
            piece_i < t.info.pieces.0@.len(),
            t.info.plength > 0,
            total_length(t.info.keys) <= usize::MAX,
        ensures
            r.piece_i == piece_i,
            r.length == piece_len_of(
                piece_i as int,
                t.info.pieces.0@.len() as int,
                total_length(t.info.keys),
                t.info.plength as int,
            ),
            r.hash == t.info.pieces.0@[piece_i as int],
            holders_ok(r.peers@, peers@, piece_i as int),
    {
        let plength = t.info.plength;
        let length = if piece_i == t.info.pieces.0.len() - 1 {
            let md = t.length() % plength;
            if md == 0 {
                plength
            } else {
                md
            }
        } else {
            plength
        };
        let mut holders: Vec<usize> = Vec::new();
        let mut k: usize = 0;
        while k < peers.len()
            invariant
                k <= peers@.len(),
                forall|q: int| 0 <= q < holders@.len() ==> holders@[q] < k && bit_of(peers@[holders@[q] as int].bitfield@, piece_i as int),
                forall|j: int, q: int| 0 <= j < q < holders@.len() ==> holders@[j] < holders@[q],
                forall|m: int| 0 <= m < k && bit_of(peers@[m].bitfield@, piece_i as int) ==> holders@.contains(m as usize),
            decreases peers@.len() - k,
        {
            if peers[k].has_piece(piece_i) {
                let ghost before = holders@;
                holders.push(k);
                assert forall|m: int| 0 <= m < k + 1 && bit_of(peers@[m].bitfield@, piece_i as int) implies holders@.contains(m as usize) by {
                    if m == k {
                        assert(holders@[holders@.len() - 1] == k);
                    } else {
                        assert(before.contains(m as usize));
                        let q = choose|q: int| 0 <= q < before.len() && before[q] == m as usize;
                        assert(holders@[q] == m as usize);
                    }
                }
            }
            k += 1;
        }
        PieceInfo { peers: holders, piece_i, length, hash: t.info.pieces.0[piece_i] }
    }

    pub fn length(&self) -> (r: usize)
        ensures
            r == self.length,
    {
        self.length
    }

    pub fn peers(&self) -> (r: &Vec<usize>)
        ensures
            r@ == self.peers@,
    {
        &self.peers
    }

    pub fn index(&self) -> (r: usize)
        ensures
            r == self.piece_i,
    {
        self.piece_i
    }

    pub fn hash(&self) -> (r: [u8; 20])
        ensures
            r == self.hash,
    {
        self.hash
    }

    /// Whether peer `peer_i` has the piece.
    pub fn has_peer(&self, peer_i: usize) -> (r: bool)
        ensures
            r == self.peers@.contains(peer_i),
    {
        let mut k: usize = 0;
        while k < self.peers.len()
            invariant
                k <= self.peers@.len(),
                forall|j: int| 0 <= j < k ==> self.peers@[j] != peer_i,
            decreases self.peers@.len() - k,
        {
            if self.peers[k] == peer_i {
                return true;
            }
            k += 1;
        }
        false
    }

    /// The fetch order: `Less` when `self` is fetched first.
    pub fn cmp(&self, other: &Self) -> (r: Ordering)
        ensures
            r == priority_order(*self, *other),
    {
        let (a, b) = (self.peers.len(), other.peers.len());
        if a < b || (a == b && self.piece_i < other.piece_i) {
            Ordering::Less
        } else if b < a || (a == b && other.piece_i < self.piece_i) {
            Ordering::Greater
        } else {
            Ordering::Equal
        }
    }
}

/// The descriptors of all pieces of `t`, in index order.
pub fn piece_infos(t: &Torrent, peers: &[PeerState]) -> (r: Vec<PieceInfo>)
    requires
        t.info.plength > 0,
        total_length(t.info.keys) <= usize::MAX,
    ensures
        r@.len() == t.info.pieces.0@.len(),
        forall|i: int|
            0 <= i < r@.len() ==> {
                let p = #[trigger] r@[i];
                &&& p.piece_i == i
                &&& p.length == piece_len_of(
                    i,
                    t.info.pieces.0@.len() as int,
                    total_length(t.info.keys),
                    t.info.plength as int,
                )
                &&& p.hash == t.info.pieces.0@[i]
                &&& holders_ok(p.peers@, peers@, i)
            },
{
    let mut r: Vec<PieceInfo> = Vec::new();
    let mut i: usize = 0;
    while i < t.info.pieces.0.len()
        invariant
            t.info.plength > 0,
            total_length(t.info.keys) <= usize::MAX,
            i <= t.info.pieces.0@.len(),
            r@.len() == i,
            forall|k: int|
                0 <= k < i ==> {
                    let p = #[trigger] r@[k];
                    &&& p.piece_i == k
                    &&& p.length == piece_len_of(
                        k,
                        t.info.pieces.0@.len() as int,
                        total_length(t.info.keys),
                        t.info.plength as int,
                    )
                    &&& p.hash == t.info.pieces.0@[k]
                    &&& holders_ok(p.peers@, peers@, k)
                },
        decreases t.info.pieces.0@.len() - i,
    {
        r.push(PieceInfo::new(i, t, peers));
        i += 1;
    }
    r
}

/// `precedes` orders pieces strictly, and totally among distinct indices.
pub proof fn lemma_priority_is_total(a: PieceInfo, b: PieceInfo, c: PieceInfo)
    ensures
        !(precedes(a, b) && precedes(b, a)),
        a.piece_i != b.piece_i ==> precedes(a, b) || precedes(b, a),
        precedes(a, b) && precedes(b, c) ==> precedes(a, c),
        priority_order(a, b) == Ordering::Less <==> priority_order(b, a) == Ordering::Greater,
{
}

} // verus!
