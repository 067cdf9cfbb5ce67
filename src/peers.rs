use vstd::prelude::*;
use crate::wire::{be32, be32_bytes, read_be32, write_be32};

pub use crate::wire::{FrameError, Message, MessageFramer, MessageTag};

verus! {

/// Whether two byte slices hold the same bytes.
pub fn bytes_eq(a: &[u8], b: &[u8]) -> (r: bool)
    ensures
        r == (a@ == b@),
{
    if a.len() != b.len() {
        return false;
    }
    let mut i: usize = 0;
    while i < a.len()
        invariant
            a@.len() == b@.len(),
            i <= a@.len(),
            a@.take(i as int) == b@.take(i as int),
        decreases a@.len() - i,
    {
        if a[i] != b[i] {
            assert(a@[i as int] != b@[i as int]);
            return false;
        }
        assert(a@.take(i + 1int) =~= a@.take(i as int).push(a@[i as int]));
        assert(b@.take(i + 1int) =~= b@.take(i as int).push(b@[i as int]));
        i += 1;
    }
    assert(a@ =~= a@.take(i as int));
    assert(b@ =~= b@.take(i as int));
    true
}

/// Twenty bytes of `src` from `start` on.
pub fn copy20(src: &[u8], start: usize) -> (r: [u8; 20])
    requires
        start + 20 <= src@.len(),
    ensures
        r@ == src@.subrange(start as int, start + 20),
{
    let _n = src.len();
    let mut a = [0u8; 20];
    let mut i: usize = 0;
    while i < 20
        invariant
            start + 20 <= src@.len(),
            src@.len() <= usize::MAX,
            i <= 20,
            a@.len() == 20,
            forall|j: int| 0 <= j < i ==> a@[j] == src@[start + j],
        decreases 20 - i,
    {
        a[i] = src[start + i];
        i += 1;
    }
    assert(a@ =~= src@.subrange(start as int, start + 20));
    a
}

/// A request for `length` bytes of piece `index` from offset `begin`; the same
/// layout serves a cancellation.
#[derive(Debug, Clone, Copy, PartialEq, Eq, Structural)]
pub struct Request {
    pub index: u32,
    pub begin: u32,
    pub length: u32,
}

impl Request {
    pub fn new(index: u32, begin: u32, length: u32) -> (r: Self)
        ensures
            r.index == index,
            r.begin == begin,
            r.length == length,
    {
        Request { index, begin, length }
    }

    pub fn index(&self) -> (r: u32)
        ensures
            r == self.index,
    {
        self.index
    }

    pub fn begin(&self) -> (r: u32)
        ensures
            r == self.begin,
    {
        self.begin
    }

    pub fn length(&self) -> (r: u32)
        ensures
            r == self.length,
    {
        self.length
    }

    /// The twelve bytes of the record: index, begin and length, big-endian.
    pub open spec fn spec_bytes(&self) -> Seq<u8> {
        be32_bytes(self.index as int) + be32_bytes(self.begin as int) + be32_bytes(self.length as int)
    }

    pub fn to_bytes(&self) -> (r: Vec<u8>)
        ensures
            r@ == self.spec_bytes(),
    {
        let mut v: Vec<u8> = Vec::new();
        v.extend_from_slice(write_be32(self.index).as_slice());
        v.extend_from_slice(write_be32(self.begin).as_slice());
        v.extend_from_slice(write_be32(self.length).as_slice());
        assert(v@ =~= self.spec_bytes());
        v
    }

    /// Reads a record from exactly twelve bytes.
    pub fn from_bytes(b: &[u8]) -> (r: Option<Self>)
        ensures
            r is Some <==> b@.len() == 12,
            r matches Some(q) ==> q.index == be32(b@.subrange(0, 4)) && q.begin == be32(
                b@.subrange(4, 8),
            ) && q.length == be32(b@.subrange(8, 12)),
    {
        if b.len() != 12 {
            return None;
        }
        let index = read_be32(b[0], b[1], b[2], b[3]);
        let begin = read_be32(b[4], b[5], b[6], b[7]);
        let length = read_be32(b[8], b[9], b[10], b[11]);
        assert(b@.subrange(0, 4) =~= seq![b@[0], b@[1], b@[2], b@[3]]);
        assert(b@.subrange(4, 8) =~= seq![b@[4], b@[5], b@[6], b@[7]]);
        assert(b@.subrange(8, 12) =~= seq![b@[8], b@[9], b@[10], b@[11]]);
        Some(Request { index, begin, length })
    }
}

/// The payload of a Piece message: where the block belongs, and its bytes.
#[derive(Debug)]
pub struct Piece {
    pub index: u32,
    pub begin: u32,
    pub block: Vec<u8>,
}

impl Piece {
    pub fn new(index: u32, begin: u32, block: Vec<u8>) -> (r: Self)
        ensures
            r.index == index,
            r.begin == begin,
            r.block@ == block@,
    {
        Piece { index, begin, block }
    }

    pub fn index(&self) -> (r: u32)
        ensures
            r == self.index,
    {
        self.index
    }

    pub fn begin(&self) -> (r: u32)
        ensures
            r == self.begin,
    {
        self.begin
    }

    pub fn block(&self) -> (r: &[u8])
        ensures
            r@ == self.block@,
    {
        self.block.as_slice()
    }

    /// The bytes of the payload: index and begin, big-endian, then the block.
    pub open spec fn spec_bytes(&self) -> Seq<u8> {
        be32_bytes(self.index as int) + be32_bytes(self.begin as int) + self.block@
    }

    pub fn to_bytes(&self) -> (r: Vec<u8>)
        ensures
            r@ == self.spec_bytes(),
    {
        let mut v: Vec<u8> = Vec::new();
        v.extend_from_slice(write_be32(self.index).as_slice());
        v.extend_from_slice(write_be32(self.begin).as_slice());
        v.extend_from_slice(self.block.as_slice());
        assert(v@ =~= self.spec_bytes());
        v
    }

    /// Reads a Piece payload: the two fields, then the block, which is all the
    /// rest. `None` when the payload is shorter than the two fields.
    pub fn ref_from_bytes(data: &[u8]) -> (r: Option<Self>)
        ensures
            r is Some <==> data@.len() >= 8,
            r matches Some(p) ==> p.index == be32(data@.subrange(0, 4)) && p.begin == be32(
                data@.subrange(4, 8),
            ) && p.block@ == data@.skip(8),
    {
        let n = data.len();
        if n < 8 {
            return None;
        }
        let index = read_be32(data[0], data[1], data[2], data[3]);
        let begin = read_be32(data[4], data[5], data[6], data[7]);
        let mut block: Vec<u8> = Vec::new();
        let mut i: usize = 8;
        while i < n
            invariant
                n == data@.len(),
                8 <= i <= n,
                block@ == data@.subrange(8, i as int),
            decreases n - i,
        {
            block.push(data[i]);
            assert(data@.subrange(8, i + 1int) =~= data@.subrange(8, i as int).push(data@[i as int]));
            i += 1;
        }
        assert(data@.subrange(0, 4) =~= seq![data@[0], data@[1], data@[2], data@[3]]);
        assert(data@.subrange(4, 8) =~= seq![data@[4], data@[5], data@[6], data@[7]]);
        assert(block@ =~= data@.skip(8));
        Some(Piece { index, begin, block })
    }
}

/// A peer's IPv4 address and port.
#[derive(Debug, Clone, Copy)]
pub struct PeerAddr {
    pub ip: [u8; 4],
    pub port: u16,
}

/// The address held in six bytes: four octets, then the port, big-endian.
pub open spec fn addr_of(b: Seq<u8>) -> PeerAddr {
    PeerAddr { ip: [b[0], b[1], b[2], b[3]], port: (b[4] * 256 + b[5]) as u16 }
}

/// The six bytes of an address.
pub open spec fn addr_bytes(a: PeerAddr) -> Seq<u8> {
    a.ip@ + seq![(a.port / 256) as u8, (a.port % 256) as u8]
}

/// The peers that a tracker reports, in its order.
#[derive(Debug, Clone)]
pub struct Peers(pub Vec<PeerAddr>);

/// The bytes of a compact peer list: six for each peer, in order.
pub open spec fn compact_bytes(peers: Seq<PeerAddr>) -> Seq<u8>
    decreases peers.len(),
{
    if peers.len() == 0 {
        Seq::empty()
    } else {
        compact_bytes(peers.drop_last()) + addr_bytes(peers.last())
    }
}

impl Peers {
    /// The compact encoding of the list.
    pub fn to_compact(&self) -> (r: Vec<u8>)
        ensures
            r@ == compact_bytes(self.0@),
    {
        let mut v: Vec<u8> = Vec::new();
        let mut i: usize = 0;
        while i < self.0.len()
            invariant
                i <= self.0@.len(),
                v@ == compact_bytes(self.0@.take(i as int)),
            decreases self.0@.len() - i,
        {
            let a = self.0[i];
            v.extend_from_slice(a.ip.as_slice());
            v.push((a.port / 256) as u8);
            v.push((a.port % 256) as u8);
            assert(self.0@.take(i + 1int).drop_last() =~= self.0@.take(i as int));
            assert(v@ =~= compact_bytes(self.0@.take(i + 1int)));
            i += 1;
        }
        assert(self.0@.take(i as int) =~= self.0@);
        v
    }
}

#[derive(Debug, Clone, Copy, PartialEq, Eq, Structural)]
pub enum PeersError {
    /// The byte string's length is not a multiple of six.
    BadLength { len: usize },
}

/// Reads a compact peer list.
pub struct PeersVisitor;

impl PeersVisitor {
    /// Decodes a compact peer list: each group of six bytes is one address.
    pub fn visit_bytes(&self, v: &[u8]) -> (r: Result<Peers, PeersError>)
        ensures
            v@.len() % 6 != 0 ==> r == Err::<Peers, PeersError>(
                PeersError::BadLength { len: v@.len() as usize },
            ),
            v@.len() % 6 == 0 ==> (r matches Ok(p) && p.0@.len() == v@.len() / 6 && forall|k: int|
                0 <= k < p.0@.len() ==> p.0@[k] == addr_of(#[trigger] v@.subrange(6 * k, 6 * k + 6))),
    {
        let n = v.len();
        if n % 6 != 0 {
            return Err(PeersError::BadLength { len: n });
        }
        let mut out: Vec<PeerAddr> = Vec::new();
        let mut i: usize = 0;
        while i < n / 6
            invariant
                n == v@.len(),
                n % 6 == 0,
                i <= n / 6,
                out@.len() == i,
                forall|k: int| 0 <= k < i ==> out@[k] == addr_of(#[trigger] v@.subrange(6 * k, 6 * k + 6)),
            decreases n / 6 - i,
        {
            let o = 6 * i;
            let a = PeerAddr {
                ip: [v[o], v[o + 1], v[o + 2], v[o + 3]],
                port: (v[o + 4] as u16) * 256 + (v[o + 5] as u16),
            };
            let ghost g = v@.subrange(6 * i as int, 6 * i + 6);
            assert(a == addr_of(g)) by {
                assert(a.ip@ =~= addr_of(g).ip@);
            }
            out.push(a);
            i += 1;
        }
        Ok(Peers(out))
    }
}

/// The nineteen bytes of the protocol's name, `BitTorrent protocol`.
pub open spec fn protocol_name() -> Seq<u8> {
    seq![66u8, 105, 116, 84, 111, 114, 114, 101, 110, 116, 32, 112, 114, 111, 116, 111, 99, 111, 108]
}

/// The handshake record exchanged once in each direction before any frame.
#[derive(Debug)]
pub struct PeerHandShake {
    pub length: u8,
    pub bittorrent: [u8; 19],
    pub reserved: [u8; 8],
    pub info_hash: [u8; 20],
    pub peer_id: [u8; 20],
}

#[derive(Debug, Clone, Copy, PartialEq, Eq, Structural)]
pub enum HandshakeError {
    /// The record is not 68 bytes long.
    BadLength,
    /// The length byte is not 19 or the protocol name differs.
    BadProtocol,
    /// The remote side names another swarm.
    InfoHashMismatch,
}

/// The verdict on a handshake record: the remote peer id, or why it is refused.
pub open spec fn handshake_verdict(h: Seq<u8>, info_hash: Seq<u8>) -> Result<Seq<u8>, HandshakeError> {
    if h.len() != 68 {
        Err(HandshakeError::BadLength)
    } else if h[0] != 19 || h.subrange(1, 20) != protocol_name() {
        Err(HandshakeError::BadProtocol)
    } else if h.subrange(28, 48) != info_hash {
        Err(HandshakeError::InfoHashMismatch)
    } else {
        Ok(h.subrange(48, 68))
    }
}

impl PeerHandShake {
    /// The 68 bytes of the record: length byte, protocol name, reserved
    /// bytes, info hash, peer id.
    pub open spec fn spec_bytes(&self) -> Seq<u8> {
        seq![self.length] + self.bittorrent@ + self.reserved@ + self.info_hash@ + self.peer_id@
    }

    pub fn new(info_hash: &[u8; 20], peer_id: &[u8; 20]) -> (r: Self)
        ensures
            r.length == 19,
            r.bittorrent@ == protocol_name(),
            r.reserved@ == Seq::new(8, |i: int| 0u8),
            r.info_hash == *info_hash,
            r.peer_id == *peer_id,
    {
        let bittorrent: [u8; 19] = [66, 105, 116, 84, 111, 114, 114, 101, 110, 116, 32, 112, 114, 111, 116, 111, 99, 111, 108];
        let reserved: [u8; 8] = [0; 8];
        assert(bittorrent@ =~= protocol_name());
        assert(reserved@ =~= Seq::new(8, |i: int| 0u8));
        PeerHandShake { length: 19, bittorrent, reserved, info_hash: *info_hash, peer_id: *peer_id }
    }

    pub fn to_bytes(&self) -> (r: Vec<u8>)
        ensures
            r@ == self.spec_bytes(),
    {
        let mut v: Vec<u8> = Vec::new();
        v.push(self.length);
        v.extend_from_slice(self.bittorrent.as_slice());
        v.extend_from_slice(self.reserved.as_slice());
        v.extend_from_slice(self.info_hash.as_slice());
        v.extend_from_slice(self.peer_id.as_slice());
        assert(v@ =~= self.spec_bytes());
        v
    }

    /// Reads a record from exactly 68 bytes.
    pub fn from_bytes(b: &[u8]) -> (r: Option<Self>)
        ensures
            r is Some <==> b@.len() == 68,
            r matches Some(h) ==> h.spec_bytes() == b@,
    {
        if b.len() != 68 {
            return None;
        }
        let mut bittorrent = [0u8; 19];
        let mut i: usize = 0;
        while i < 19
            invariant
                b@.len() == 68,
                i <= 19,
                bittorrent@.len() == 19,
                forall|j: int| 0 <= j < i ==> bittorrent@[j] == b@[1 + j],
            decreases 19 - i,
        {
            bittorrent[i] = b[1 + i];
            i += 1;
        }
        let mut reserved = [0u8; 8];
        let mut k: usize = 0;
        while k < 8
            invariant
                b@.len() == 68,
                k <= 8,
                reserved@.len() == 8,
                forall|j: int| 0 <= j < k ==> reserved@[j] == b@[20 + j],
            decreases 8 - k,
        {
            reserved[k] = b[20 + k];
            k += 1;
        }
        let h = PeerHandShake {
            length: b[0],
            bittorrent,
            reserved,
            info_hash: copy20(b, 28),
            peer_id: copy20(b, 48),
        };
        assert(h.spec_bytes() =~= b@);
        Some(h)
    }

    /// Checks the record that the remote side sent back: its length byte and
    /// protocol name, and that it names the swarm `info_hash`. The reserved
    /// bytes are ignored. Gives the remote peer id.
    pub fn validate_reply(&self, info_hash: &[u8; 20]) -> (r: Result<[u8; 20], HandshakeError>)
        ensures
            match handshake_verdict(self.spec_bytes(), info_hash@) {
                Ok(id) => r matches Ok(p) && p@ == id,
                Err(e) => r == Err::<[u8; 20], HandshakeError>(e),
            },
    {
        let ghost h = self.spec_bytes();
        assert(h.subrange(1, 20) =~= self.bittorrent@);
        assert(h.subrange(28, 48) =~= self.info_hash@);
        assert(h.subrange(48, 68) =~= self.peer_id@);
        let name: [u8; 19] = [66, 105, 116, 84, 111, 114, 114, 101, 110, 116, 32, 112, 114, 111, 116, 111, 99, 111, 108];
        assert(name@ =~= protocol_name());
        if self.length != 19 || !bytes_eq(self.bittorrent.as_slice(), name.as_slice()) {
            return Err(HandshakeError::BadProtocol);
        }
        if !bytes_eq(self.info_hash.as_slice(), info_hash.as_slice()) {
            return Err(HandshakeError::InfoHashMismatch);
        }
        Ok(self.peer_id)
    }
}

/// The record of a handshake built from `info_hash` and `peer_id` starts with
/// the length byte 19 and the protocol name, and any record with the same
/// bytes carries that same info hash and peer id.
pub proof fn lemma_handshake_round_trip(
    info_hash: [u8; 20],
    peer_id: [u8; 20],
    sent: PeerHandShake,
    read: PeerHandShake,
)
    requires
        sent.length == 19,
        sent.bittorrent@ == protocol_name(),
        sent.info_hash == info_hash,
        sent.peer_id == peer_id,
        read.spec_bytes() == sent.spec_bytes(),
    ensures
        sent.spec_bytes().len() == 68,
        sent.spec_bytes()[0] == 19,
        sent.spec_bytes().subrange(1, 20) == protocol_name(),
        read.info_hash == info_hash,
        read.peer_id == peer_id,
        handshake_verdict(sent.spec_bytes(), info_hash@) == Ok::<Seq<u8>, HandshakeError>(peer_id@),
{
    let b = sent.spec_bytes();
    assert(b.subrange(1, 20) =~= sent.bittorrent@);
    assert(b.subrange(28, 48) =~= sent.info_hash@);
    assert(b.subrange(48, 68) =~= sent.peer_id@);
    let c = read.spec_bytes();
    assert(c.subrange(28, 48) =~= read.info_hash@);
    assert(c.subrange(48, 68) =~= read.peer_id@);
    assert(read.info_hash@ =~= info_hash@);
    assert(read.peer_id@ =~= peer_id@);
}

/// Whether bit `i` (most significant bit first) of the byte sequence is set.
pub open spec fn bit_of(bytes: Seq<u8>, i: int) -> bool {
    0 <= i && i / 8 < bytes.len() && (bytes[i / 8] >> ((7 - i % 8) as u8)) & 1u8 == 1u8
}

/// The pieces that a peer advertises: piece `i` lives at byte `i / 8`, bit
/// `7 - i % 8`; absent bytes mean absent pieces.
#[derive(Debug, Clone)]
pub struct Bitfield {
    pub payload: Vec<u8>,
}

impl View for Bitfield {
    type V = Seq<u8>;

    open spec fn view(&self) -> Seq<u8> {
        self.payload@
    }
}

impl Bitfield {
    pub fn new(payload: Vec<u8>) -> (r: Bitfield)
        ensures
            r@ == payload@,
    {
        Bitfield { payload }
    }

    pub fn has_piece(&self, piece_i: usize) -> (r: bool)
        ensures
            r == bit_of(self@, piece_i as int),
    {
        let byte_i = piece_i / 8;
        if byte_i >= self.payload.len() {
            return false;
        }
        let byte = self.payload[byte_i];
        let shift: u8 = (7 - piece_i % 8) as u8;
        (byte >> shift) & 1u8 == 1u8
    }

    /// The pieces advertised, in ascending order.
    pub fn pieces(&self) -> (r: Vec<usize>)
        requires
            self@.len() * 8 <= usize::MAX,
        ensures
            forall|k: int| 0 <= k < r@.len() ==> bit_of(self@, r@[k] as int),
            forall|j: int, k: int| 0 <= j < k < r@.len() ==> r@[j] < r@[k],
            forall|m: int| bit_of(self@, m) ==> r@.contains(m as usize),
    {
        let n = self.payload.len() * 8;
        let mut r: Vec<usize> = Vec::new();
        let mut i: usize = 0;
        while i < n
            invariant
                n == self@.len() * 8,
                i <= n,
                forall|k: int| 0 <= k < r@.len() ==> r@[k] < i && bit_of(self@, r@[k] as int),
                forall|j: int, k: int| 0 <= j < k < r@.len() ==> r@[j] < r@[k],
                forall|m: int| 0 <= m < i && bit_of(self@, m) ==> r@.contains(m as usize),
            decreases n - i,
        {
            if self.has_piece(i) {
                let ghost old_r = r@;
                r.push(i);
                assert forall|m: int| 0 <= m < i + 1 && bit_of(self@, m) implies r@.contains(m as usize) by {
                    if m == i {
                        assert(r@[r@.len() - 1] == i);
                    } else {
                        assert(old_r.contains(m as usize));
                        let k = choose|k: int| 0 <= k < old_r.len() && old_r[k] == m as usize;
                        assert(r@[k] == m as usize);
                    }
                }
            }
            i += 1;
        }
        r
    }

    /// Records that the peer has piece `piece_i`, growing the bit vector with
    /// zero bytes where it is too short.
    pub fn set_piece(&mut self, piece_i: usize)
        ensures
            bit_of(final(self)@, piece_i as int),
            forall|j: int| j != piece_i ==> bit_of(final(self)@, j) == bit_of(old(self)@, j),
    {
        let byte_i = piece_i / 8;
        while self.payload.len() <= byte_i
            invariant
                forall|j: int| bit_of(self@, j) == bit_of(old(self)@, j),
                self@.len() >= old(self)@.len(),
                forall|k: int| 0 <= k < old(self)@.len() ==> self@[k] == old(self)@[k],
                forall|k: int| old(self)@.len() <= k < self@.len() ==> self@[k] == 0u8,
            decreases byte_i + 1 - self.payload.len(),
        {
            self.payload.push(0u8);
            assert forall|j: int| bit_of(self@, j) == bit_of(old(self)@, j) by {
                if 0 <= j && j / 8 < self@.len() {
                    if j / 8 >= old(self)@.len() {
                        let sh = (7 - j % 8) as u8;
                        assert(self@[j / 8] == 0u8);
                        assert((0u8 >> sh) & 1u8 == 0u8) by (bit_vector);
                    } else {
                        assert(self@[j / 8] == old(self)@[j / 8]);
                    }
                }
            }
        }
        let ghost mid = self@;
        let bit: u8 = (7 - piece_i % 8) as u8;
        let b = self.payload[byte_i];
        let nb = b | (1u8 << bit);
        self.payload.set(byte_i, nb);
        assert((nb >> bit) & 1u8 == 1u8) by (bit_vector)
            requires
                nb == b | (1u8 << bit),
                bit < 8,
        ;
        assert forall|j: int| j != piece_i implies bit_of(self@, j) == bit_of(mid, j) by {
            if 0 <= j && j / 8 < self@.len() && j / 8 == byte_i {
                let t = (7 - j % 8) as u8;
                assert(t != bit);
                assert(t < 8);
                assert((nb >> t) & 1u8 == (b >> t) & 1u8) by (bit_vector)
                    requires
                        nb == b | (1u8 << bit),
                        bit < 8,
                        t < 8,
                        t != bit,
                ;
            }
        }
    }
}

} // verus!
