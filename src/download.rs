//! The download of a whole torrent: which piece to fetch next, the reassembly
//! of a piece from its blocks, its verification, and the split of the content
//! into its files.

use vstd::prelude::*;
use crate::hash::{sha1_digest, sha1_of};
use crate::peers::{Peers, Piece};
use crate::piece::{precedes, PieceInfo};
use crate::session::{block_len, blocks_of, reaction, Participation, Phase, Reaction};
use crate::wire::{be32, MessageTag};
use crate::torrent::{files_total, FileInfo};

verus! {

#[derive(Debug, Clone, Copy, PartialEq, Eq, Structural)]
pub enum DownloadError {
    /// The tracker reported no peers.
    NoPeers,
    /// No connected peer has this piece.
    NoPeersForPiece { piece: usize },
    /// Every peer stopped before all the blocks of this piece arrived.
    PieceIncomplete { piece: usize },
    /// The bytes of this piece do not have the expected digest.
    HashMismatch { piece: usize },
}

/// Fails when the tracker reported no peer at all, before any connection is tried.
pub fn check_peers(peers: &Peers) -> (r: Result<(), DownloadError>)
    ensures
        peers.0@.len() == 0 ==> r == Err::<(), DownloadError>(DownloadError::NoPeers),
        peers.0@.len() > 0 ==> r == Ok::<(), DownloadError>(()),
{
    if peers.0.len() == 0 {
        Err(DownloadError::NoPeers)
    } else {
        Ok(())
    }
}

/// The pieces still to fetch, and those that no peer has.
#[derive(Debug)]
pub struct Plan {
    pub pending: Vec<PieceInfo>,
    pub blocked: Vec<PieceInfo>,
}

/// Whether a piece has a candidate peer.
pub open spec fn has_candidates(p: PieceInfo) -> bool {
    p.peers@.len() > 0
}

impl Plan {
    /// Sets aside the pieces with no candidate peer; the others are pending.
    pub fn new(pieces: Vec<PieceInfo>) -> (r: Plan)
        ensures
            r.pending@ == pieces@.filter(|p: PieceInfo| has_candidates(p)),
            r.blocked@ == pieces@.filter(|p: PieceInfo| !has_candidates(p)),
    {
        let mut pieces = pieces;
        let ghost all = pieces@;
        let mut pending: Vec<PieceInfo> = Vec::new();
        let mut blocked: Vec<PieceInfo> = Vec::new();
        let ghost mut i: int = 0;
        while pieces.len() > 0
            invariant
                0 <= i <= all.len(),
                pieces@ == all.skip(i),
                pending@ == all.take(i).filter(|p: PieceInfo| has_candidates(p)),
                blocked@ == all.take(i).filter(|p: PieceInfo| !has_candidates(p)),
            decreases pieces@.len(),
        {
            let p = pieces.remove(0);
            proof {
                assert(p == all[i]);
                assert(pieces@ =~= all.skip(i + 1));
                assert(all.take(i + 1).drop_last() =~= all.take(i));
                assert(all.take(i + 1).last() == p);
                reveal(Seq::filter);
            }
            if p.peers.len() > 0 {
                pending.push(p);
            } else {
                blocked.push(p);
            }
            proof {
                i = i + 1;
            }
        }
        assert(all.take(i) =~= all);
        Plan { pending, blocked }
    }

    /// Takes the pending piece to fetch next: the one that no other pending
    /// piece precedes. With nothing pending, a piece that no peer has is an
    /// error, and otherwise the download is over.
    pub fn next_piece(&mut self) -> (r: Result<Option<PieceInfo>, DownloadError>)
        ensures
            old(self).pending@.len() > 0 ==> ((r matches Ok(Some(p)) && exists|k: int|
                0 <= k < old(self).pending@.len() && #[trigger] old(self).pending@[k] == p
                    && final(self).pending@ == old(self).pending@.remove(k)) && (forall|j: int|
                0 <= j < old(self).pending@.len() ==> !precedes(
                    #[trigger] old(self).pending@[j],
                    r->Ok_0->Some_0,
                )) && final(self).blocked@ == old(self).blocked@),
            old(self).pending@.len() == 0 && old(self).blocked@.len() > 0 ==> r == Err::<
                Option<PieceInfo>,
                DownloadError,
            >(DownloadError::NoPeersForPiece { piece: old(self).blocked@[0].piece_i })
                && final(self).pending@ == old(self).pending@ && final(self).blocked@ == old(
                self,
            ).blocked@,
            old(self).pending@.len() == 0 && old(self).blocked@.len() == 0 ==> (r matches Ok(None)
                && final(self).pending@ == old(self).pending@ && final(self).blocked@ == old(
                self,
            ).blocked@),
    {
        if self.pending.len() == 0 {
            if self.blocked.len() > 0 {
                return Err(DownloadError::NoPeersForPiece { piece: self.blocked[0].piece_i });
            }
            return Ok(None);
        }
        let mut best: usize = 0;
        let mut k: usize = 1;
        while k < self.pending.len()
            invariant
                self.pending@ == old(self).pending@,
                self.blocked@ == old(self).blocked@,
                0 <= best < k <= self.pending@.len(),
                forall|j: int| 0 <= j < k ==> !precedes(#[trigger] self.pending@[j], self.pending@[best as int]),
            decreases self.pending@.len() - k,
        {
            let a = &self.pending[k];
            let b = &self.pending[best];
            if a.peers.len() < b.peers.len() || (a.peers.len() == b.peers.len() && a.piece_i < b.piece_i) {
                best = k;
            }
            k += 1;
        }
        let p = self.pending.remove(best);
        assert(old(self).pending@[best as int] == p);
        Ok(Some(p))
    }
}

/// The reassembly of one piece from its blocks.
#[derive(Debug)]
pub struct PieceAssembly {
    pub piece_i: usize,
    pub length: usize,
    pub block_size: usize,
    pub nblocks: usize,
    /// The piece's bytes as far as they arrived.
    pub buf: Vec<u8>,
    /// Which blocks arrived.
    pub got: Vec<bool>,
}

/// Whether `after` is `before` with the block of `pc` stored: its bytes at
/// offset `pc.begin`, and its block marked as arrived.
pub open spec fn stored(before: PieceAssembly, after: PieceAssembly, pc: Piece) -> bool {
    let bs = before.block_size as int;
    let b = pc.begin as int / bs;
    &&& after.piece_i == before.piece_i
    &&& after.length == before.length
    &&& after.block_size == before.block_size
    &&& after.nblocks == before.nblocks
    &&& after.got@ == before.got@.update(b, true)
    &&& after.buf@.len() == before.buf@.len()
    &&& forall|x: int|
        0 <= x < after.buf@.len() ==> #[trigger] after.buf@[x] == if pc.begin <= x < pc.begin
            + pc.block@.len() {
            pc.block@[x - pc.begin]
        } else {
            before.buf@[x]
        }
}

/// Whether the block of `pc` is one that `a` still waits for: of its piece, at
/// a block boundary, of that block's length, and not yet arrived.
pub open spec fn fits(a: PieceAssembly, pc: Piece) -> bool {
    let bs = a.block_size as int;
    &&& pc.index == a.piece_i
    &&& pc.begin as int % bs == 0
    &&& pc.begin as int / bs < a.nblocks
    &&& pc.block@.len() == block_len(a.length as int, bs, pc.begin as int / bs)
    &&& !a.got@[pc.begin as int / bs]
}

/// Whether all blocks arrived.
pub open spec fn complete(a: PieceAssembly) -> bool {
    forall|b: int| 0 <= b < a.nblocks ==> #[trigger] a.got@[b]
}

/// Whether every block of `a` that arrived holds the bytes of `content` there.
pub open spec fn agrees(a: PieceAssembly, content: Seq<u8>) -> bool {
    forall|b: int, x: int|
        0 <= b < a.nblocks && #[trigger] a.got@[b] && b * a.block_size <= x < b * a.block_size
            + block_len(a.length as int, a.block_size as int, b) ==> #[trigger] a.buf@[x] == content[x]
}

/// Fails unless `digest`, the digest of piece `piece_i`'s bytes, is `expected`.
pub fn check_digest(piece_i: usize, digest: &[u8; 20], expected: &[u8; 20]) -> (r: Result<(), DownloadError>)
    ensures
        digest@ == expected@ ==> r == Ok::<(), DownloadError>(()),
        digest@ != expected@ ==> r == Err::<(), DownloadError>(DownloadError::HashMismatch { piece: piece_i }),
{
    if crate::peers::bytes_eq(digest.as_slice(), expected.as_slice()) {
        Ok(())
    } else {
        Err(DownloadError::HashMismatch { piece: piece_i })
    }
}

proof fn lemma_block_of(length: int, bs: int, x: int)
    requires
        0 < bs,
        0 <= x < length,
    ensures
        0 <= x / bs < blocks_of(length, bs),
        (x / bs) * bs <= x < (x / bs) * bs + block_len(length, bs, x / bs),
{
    let b = x / bs;
    assert(b * bs <= x < b * bs + bs && 0 <= b) by (nonlinear_arith)
        requires
            0 < bs,
            0 <= x,
            b == x / bs,
    ;
    assert(b < (length + bs - 1) / bs) by (nonlinear_arith)
        requires
            0 < bs,
            0 <= x < length,
            b == x / bs,
    {
        assert(x + bs - 1 < length + bs - 1);
        assert((x + bs) / bs == b + 1) by {
            assert((x + bs) / bs == x / bs + 1) by (nonlinear_arith)
                requires
                    0 < bs,
                    0 <= x,
            ;
        }
        assert((x + bs) / bs <= (length + bs - 1) / bs) by (nonlinear_arith)
            requires
                0 < bs,
                x + bs <= length + bs - 1,
                0 <= x,
        ;
    }
    assert((b + 1) * bs == b * bs + bs) by (nonlinear_arith);
}

impl PieceAssembly {
    /// The assembly's invariant: the block count fits the length, and the
    /// buffer and the arrival flags have their sizes.
    pub open spec fn wf(&self) -> bool {
        &&& 0 < self.block_size
        &&& 0 < self.length
        &&& self.nblocks == blocks_of(self.length as int, self.block_size as int)
        &&& self.buf@.len() == self.length
        &&& self.got@.len() == self.nblocks
    }

    /// An empty assembly of piece `piece_i`, `length` bytes in blocks of `block_size`.
    pub fn new(piece_i: usize, length: usize, block_size: usize) -> (r: Self)
        requires
            0 < block_size,
            0 < length,
        ensures
            r.wf(),
            r.piece_i == piece_i,
            r.length == length,
            r.block_size == block_size,
            r.buf@ == Seq::new(length as nat, |i: int| 0u8),
            forall|b: int| 0 <= b < r.nblocks ==> !(#[trigger] r.got@[b]),
    {
        let q = length / block_size;
        let nblocks = if length % block_size == 0 {
            q
        } else {
            assert(q < length) by (nonlinear_arith)
                requires
                    0 < block_size,
                    0 < length,
                    q == length / block_size,
                    length % block_size != 0,
            ;
            q + 1
        };
        assert(nblocks == blocks_of(length as int, block_size as int)) by (nonlinear_arith)
            requires
                0 < block_size,
                q == length / block_size,
                length % block_size == 0 ==> nblocks == q,
                length % block_size != 0 ==> nblocks == q + 1,
        {
        }
        let mut buf: Vec<u8> = Vec::new();
        let mut i: usize = 0;
        while i < length
            invariant
                i <= length,
                buf@ == Seq::new(i as nat, |k: int| 0u8),
            decreases length - i,
        {
            buf.push(0u8);
            assert(buf@ =~= Seq::new((i + 1) as nat, |k: int| 0u8));
            i += 1;
        }
        let mut got: Vec<bool> = Vec::new();
        let mut j: usize = 0;
        while j < nblocks
            invariant
                j <= nblocks,
                got@.len() == j,
                forall|b: int| 0 <= b < j ==> !(#[trigger] got@[b]),
            decreases nblocks - j,
        {
            got.push(false);
            j += 1;
        }
        PieceAssembly { piece_i, length, block_size, nblocks, buf, got }
    }

    /// Stores the block of `pc` where it fits (see `fits`); any other block,
    /// stale or repeated, is dropped. Says whether it was stored.
    pub fn accept(&mut self, pc: &Piece) -> (r: bool)
        requires
            old(self).wf(),
        ensures
            final(self).wf(),
            r == fits(*old(self), *pc),
            r ==> stored(*old(self), *final(self), *pc),
            !r ==> *final(self) == *old(self),
    {
        let bs = self.block_size;
        if pc.index as usize != self.piece_i || pc.begin as usize % bs != 0 {
            return false;
        }
        let b = pc.begin as usize / bs;
        if b >= self.nblocks {
            return false;
        }
        proof {
            assert(b * bs <= pc.begin) by (nonlinear_arith)
                requires
                    0 < bs,
                    b == pc.begin as int / bs as int,
            ;
            assert(b * bs == pc.begin) by (nonlinear_arith)
                requires
                    0 < bs,
                    b == pc.begin as int / bs as int,
                    pc.begin as int % bs as int == 0,
            ;
            crate::session::lemma_block_bounds(self.length as int, bs as int, b as int);
        }
        let start = pc.begin as usize;
        let expected = if self.length - start >= bs {
            bs
        } else {
            self.length - start
        };
        if pc.block.len() != expected || self.got[b] {
            return false;
        }
        let ghost before = *self;
        let mut j: usize = 0;
        while j < expected
            invariant
                self.piece_i == before.piece_i,
                self.length == before.length,
                self.block_size == before.block_size,
                self.nblocks == before.nblocks,
                self.got@ == before.got@,
                before.wf(),
                start + expected <= self.length,
                pc.block@.len() == expected,
                j <= expected,
                self.buf@.len() == before.buf@.len(),
                forall|x: int|
                    0 <= x < self.buf@.len() ==> #[trigger] self.buf@[x] == if start <= x < start + j {
                        pc.block@[x - start]
                    } else {
                        before.buf@[x]
                    },
            decreases expected - j,
        {
            self.buf.set(start + j, pc.block[j]);
            j += 1;
        }
        self.got.set(b, true);
        true
    }

    /// Whether all blocks arrived.
    pub fn is_complete(&self) -> (r: bool)
        requires
            self.wf(),
        ensures
            r == complete(*self),
    {
        let mut b: usize = 0;
        while b < self.nblocks
            invariant
                b <= self.nblocks,
                self.got@.len() == self.nblocks,
                forall|c: int| 0 <= c < b ==> #[trigger] self.got@[c],
            decreases self.nblocks - b,
        {
            if !self.got[b] {
                return false;
            }
            b += 1;
        }
        true
    }

    /// The piece's bytes, once all blocks arrived and their digest is `expected`.
    pub fn finish(self, expected: &[u8; 20]) -> (r: Result<Vec<u8>, DownloadError>)
        requires
            self.wf(),
        ensures
            !complete(self) ==> r == Err::<Vec<u8>, DownloadError>(
                DownloadError::PieceIncomplete { piece: self.piece_i },
            ),
            complete(self) && sha1_of(self.buf@) != expected@ ==> r == Err::<Vec<u8>, DownloadError>(
                DownloadError::HashMismatch { piece: self.piece_i },
            ),
            complete(self) && sha1_of(self.buf@) == expected@ ==> (r matches Ok(v) && v@ == self.buf@),
    {
        if !self.is_complete() {
            return Err(DownloadError::PieceIncomplete { piece: self.piece_i });
        }
        let digest = sha1_digest(self.buf.as_slice());
        match check_digest(self.piece_i, &digest, expected) {
            Ok(()) => Ok(self.buf),
            Err(e) => Err(e),
        }
    }
}

/// Storing a block that holds the bytes of `content` at its place keeps an
/// assembly in agreement with `content`.
pub proof fn lemma_store_keeps_agreement(
    before: PieceAssembly,
    after: PieceAssembly,
    pc: Piece,
    content: Seq<u8>,
)
    requires
        before.wf(),
        content.len() == before.length,
        agrees(before, content),
        fits(before, pc),
        stored(before, after, pc),
        pc.begin + pc.block@.len() <= content.len(),
        pc.block@ == content.subrange(pc.begin as int, pc.begin + pc.block@.len()),
    ensures
        after.wf(),
        agrees(after, content),
{
    let bs = before.block_size as int;
    let nb = pc.begin as int / bs;
    assert(nb * bs == pc.begin) by (nonlinear_arith)
        requires
            0 < bs,
            nb == pc.begin as int / bs,
            pc.begin as int % bs == 0,
    ;
    assert forall|b: int, x: int|
        0 <= b < after.nblocks && #[trigger] after.got@[b] && b * after.block_size <= x < b
            * after.block_size + block_len(after.length as int, after.block_size as int, b) implies #[trigger] after.buf@[x]
        == content[x] by {
        crate::session::lemma_block_bounds(before.length as int, bs, b);
        if pc.begin <= x < pc.begin + pc.block@.len() {
            assert(after.buf@[x] == pc.block@[x - pc.begin]);
            assert(pc.block@[x - pc.begin] == content.subrange(pc.begin as int, pc.begin + pc.block@.len())[x - pc.begin]);
        } else {
            assert(after.buf@[x] == before.buf@[x]);
            if b == nb {
                assert(false);
            }
            assert(before.got@[b]);
            assert(before.buf@[x] == content[x]);
        }
    }
}

/// An assembly whose blocks all arrived, each holding the bytes of `content`
/// at its place, holds exactly `content`: whatever order the blocks came in,
/// the piece is the bytes that were sent.
pub proof fn lemma_complete_assembly_is_content(a: PieceAssembly, content: Seq<u8>)
    requires
        a.wf(),
        content.len() == a.length,
        agrees(a, content),
        complete(a),
    ensures
        a.buf@ == content,
{
    assert forall|x: int| 0 <= x < a.length implies a.buf@[x] == content[x] by {
        lemma_block_of(a.length as int, a.block_size as int, x);
        let b = x / (a.block_size as int);
        assert(a.got@[b]);
    }
    assert(a.buf@ =~= content);
}

/// A block that a session delivers, for a block that the piece's assembly
/// still waits for, is one that the assembly stores.
pub proof fn lemma_delivered_block_fits(
    p: Participation,
    block: usize,
    payload: Seq<u8>,
    pc: Piece,
    a: PieceAssembly,
)
    requires
        p.wf(false),
        p.phase == (Phase::AwaitBlock { block }),
        reaction(p, false, MessageTag::Piece, payload) == Reaction::Deliver,
        pc.index == be32(payload.subrange(0, 4)),
        pc.begin == be32(payload.subrange(4, 8)),
        pc.block@ == payload.skip(8),
        a.wf(),
        a.piece_i == p.piece_i,
        a.length == p.piece_size,
        a.block_size == p.block_size,
        !a.got@[block as int],
    ensures
        fits(a, pc),
{
    let bs = a.block_size as int;
    assert(pc.begin as int == block * bs);
    assert((block * bs) % bs == 0 && (block * bs) / bs == block) by (nonlinear_arith)
        requires
            0 < bs,
            0 <= block,
    ;
}

/// Copies the verified bytes of a piece into the content at `offset`.
pub fn place_piece(all: &mut Vec<u8>, offset: usize, piece: &[u8])
    requires
        offset + piece@.len() <= old(all)@.len(),
    ensures
        final(all)@ == old(all)@.take(offset as int) + piece@ + old(all)@.skip(offset + piece@.len()),
{
    let _len = all.len();
    let mut j: usize = 0;
    while j < piece.len()
        invariant
            offset + piece@.len() <= old(all)@.len(),
            old(all)@.len() <= usize::MAX,
            all@.len() == old(all)@.len(),
            j <= piece@.len(),
            forall|x: int|
                0 <= x < all@.len() ==> #[trigger] all@[x] == if offset <= x < offset + j {
                    piece@[x - offset]
                } else {
                    old(all)@[x]
                },
        decreases piece@.len() - j,
    {
        all.set(offset + j, piece[j]);
        j += 1;
    }
    assert(all@ =~= old(all)@.take(offset as int) + piece@ + old(all)@.skip(offset + piece@.len()));
}

/// The whole content, with the files it is cut into.
#[derive(Debug)]
pub struct Downloaded {
    pub bytes: Vec<u8>,
    pub files: Vec<FileInfo>,
}

/// One file of the content and its bytes.
#[derive(Debug)]
pub struct DownloadedFile<'a> {
    pub file: &'a FileInfo,
    pub bytes: &'a [u8],
}

impl<'a> DownloadedFile<'a> {
    pub fn path(&self) -> (r: &'a [String])
        ensures
            r@ == self.file.path@,
    {
        self.file.path.as_slice()
    }

    pub fn bytes(&self) -> (r: &'a [u8])
        ensures
            r@ == self.bytes@,
    {
        self.bytes
    }
}

/// Walks the files of a download in order, each taking the bytes that follow
/// those of the one before.
pub struct DownloadIter<'a> {
    pub downloaded: &'a Downloaded,
    pub index: usize,
    pub offset: usize,
}

impl<'a> DownloadIter<'a> {
    pub fn new(downloaded: &'a Downloaded) -> (r: Self)
        ensures
            r.downloaded == downloaded,
            r.index == 0,
            r.offset == 0,
    {
        DownloadIter { downloaded, index: 0, offset: 0 }
    }

    /// The next file and its bytes; `None` after the last file, or where the
    /// content is too short for the next one.
    pub fn next(&mut self) -> (r: Option<DownloadedFile<'a>>)
        requires
            old(self).offset == files_total(old(self).downloaded.files@.take(old(self).index as int)),
            old(self).index <= old(self).downloaded.files@.len(),
        ensures
            final(self).downloaded == old(self).downloaded,
            final(self).index <= final(self).downloaded.files@.len(),
            final(self).offset == files_total(final(self).downloaded.files@.take(final(self).index as int)),
            ({
                let files = old(self).downloaded.files@;
                let i = old(self).index as int;
                let off = old(self).offset as int;
                if i < files.len() && off + files[i].length <= old(self).downloaded.bytes@.len() {
                    r matches Some(f) && *f.file == files[i] && f.bytes@
                        == old(self).downloaded.bytes@.subrange(off, off + files[i].length)
                        && final(self).index == i + 1
                } else {
                    r is None && final(self).index == old(self).index
                }
            }),
    {
        let files = &self.downloaded.files;
        if self.index >= files.len() {
            return None;
        }
        let file = &files[self.index];
        let bytes = self.downloaded.bytes.as_slice();
        if file.length > bytes.len() || self.offset > bytes.len() - file.length {
            return None;
        }
        let start = self.offset;
        let end = start + file.length;
        let part = &bytes[start..end];
        proof {
            assert(files@.take(self.index + 1int).drop_last() =~= files@.take(self.index as int));
        }
        self.index = self.index + 1;
        self.offset = end;
        Some(DownloadedFile { file, bytes: part })
    }
}

impl Downloaded {
    pub fn new(bytes: Vec<u8>, files: Vec<FileInfo>) -> (r: Self)
        ensures
            r.bytes@ == bytes@,
            r.files@ == files@,
    {
        Downloaded { bytes, files }
    }

    pub fn iter(&self) -> (r: DownloadIter<'_>)
        ensures
            r.downloaded == self,
            r.index == 0,
            r.offset == 0,
    {
        DownloadIter::new(self)
    }
}

} // verus!
