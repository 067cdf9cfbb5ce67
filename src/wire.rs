//! Length-prefixed message frames of the peer wire protocol.

use vstd::prelude::*;
use bytes::BytesMut;
use crate::buffer::{buffer_contents, buf_advance, buf_byte, buf_copy, buf_extend, buf_len, buf_put_u8};

verus! {

/// The largest frame body accepted, tag byte included.
pub const MAX: usize = 65536;

/// The big-endian number held in four bytes.
pub open spec fn be32(b: Seq<u8>) -> int {
    b[0] * 16777216 + b[1] * 65536 + b[2] * 256 + b[3]
}

/// The four big-endian bytes of `x`.
pub open spec fn be32_bytes(x: int) -> Seq<u8> {
    seq![(x / 16777216) as u8, (x / 65536 % 256) as u8, (x / 256 % 256) as u8, (x % 256) as u8]
}

/// The four big-endian bytes of a 32-bit number read back as that number.
pub proof fn lemma_be32_bytes(x: int)
    requires
        0 <= x < 0x1_0000_0000,
    ensures
        be32_bytes(x).len() == 4,
        be32(be32_bytes(x)) == x,
{
    assert(be32(be32_bytes(x)) == x) by (nonlinear_arith)
        requires
            0 <= x < 0x1_0000_0000,
            be32_bytes(x) == seq![(x / 16777216) as u8, (x / 65536 % 256) as u8, (x / 256 % 256) as u8, (x % 256) as u8],
    {
    }
}

/// Four bytes hold a number below 2^32.
pub proof fn lemma_be32_bound(b: Seq<u8>)
    requires
        b.len() == 4,
    ensures
        0 <= be32(b) < 0x1_0000_0000,
{
    let (a0, a1, a2, a3) = (b[0] as int, b[1] as int, b[2] as int, b[3] as int);
    assert(0 <= a0 * 16777216 + a1 * 65536 + a2 * 256 + a3 < 0x1_0000_0000) by (nonlinear_arith)
        requires
            0 <= a0 < 256,
            0 <= a1 < 256,
            0 <= a2 < 256,
            0 <= a3 < 256,
    {
    }
}

/// Reads a big-endian `u32`.
pub fn read_be32(b0: u8, b1: u8, b2: u8, b3: u8) -> (r: u32)
    ensures
        r == be32(seq![b0, b1, b2, b3]),
{
    proof {
        lemma_be32_bound(seq![b0, b1, b2, b3]);
    }
    let (a0, a1, a2, a3) = (b0 as u32, b1 as u32, b2 as u32, b3 as u32);
    assert(a0 * 16777216 + a1 * 65536 + a2 * 256 + a3 < 0x1_0000_0000);
    a0 * 16777216 + a1 * 65536 + a2 * 256 + a3
}

/// The four big-endian bytes of a `u32`.
pub fn write_be32(x: u32) -> (r: [u8; 4])
    ensures
        r@ == be32_bytes(x as int),
{
    let r = [(x / 16777216) as u8, (x / 65536 % 256) as u8, (x / 256 % 256) as u8, (x % 256) as u8];
    assert(r@ =~= be32_bytes(x as int));
    r
}

#[derive(Debug, Clone, Copy, PartialEq, Eq, Structural)]
pub enum MessageTag {
    Choke,
    Unchoke,
    Interested,
    NotInterested,
    Have,
    Bitfield,
    Request,
    Piece,
    Cancel,
}

/// The byte that stands for a tag on the wire.
pub open spec fn tag_byte(t: MessageTag) -> u8 {
    match t {
        MessageTag::Choke => 0,
        MessageTag::Unchoke => 1,
        MessageTag::Interested => 2,
        MessageTag::NotInterested => 3,
        MessageTag::Have => 4,
        MessageTag::Bitfield => 5,
        MessageTag::Request => 6,
        MessageTag::Piece => 7,
        MessageTag::Cancel => 8,
    }
}

/// The tag that a byte stands for, if any.
pub open spec fn tag_of(b: u8) -> Option<MessageTag> {
    if b == 0 {
        Some(MessageTag::Choke)
    } else if b == 1 {
        Some(MessageTag::Unchoke)
    } else if b == 2 {
        Some(MessageTag::Interested)
    } else if b == 3 {
        Some(MessageTag::NotInterested)
    } else if b == 4 {
        Some(MessageTag::Have)
    } else if b == 5 {
        Some(MessageTag::Bitfield)
    } else if b == 6 {
        Some(MessageTag::Request)
    } else if b == 7 {
        Some(MessageTag::Piece)
    } else if b == 8 {
        Some(MessageTag::Cancel)
    } else {
        None
    }
}

impl MessageTag {
    pub fn to_byte(&self) -> (r: u8)
        ensures
            r == tag_byte(*self),
    {
        match self {
            MessageTag::Choke => 0,
            MessageTag::Unchoke => 1,
            MessageTag::Interested => 2,
            MessageTag::NotInterested => 3,
            MessageTag::Have => 4,
            MessageTag::Bitfield => 5,
            MessageTag::Request => 6,
            MessageTag::Piece => 7,
            MessageTag::Cancel => 8,
        }
    }

    pub fn from_byte(b: u8) -> (r: Option<MessageTag>)
        ensures
            r == tag_of(b),
    {
        match b {
            0 => Some(MessageTag::Choke),
            1 => Some(MessageTag::Unchoke),
            2 => Some(MessageTag::Interested),
            3 => Some(MessageTag::NotInterested),
            4 => Some(MessageTag::Have),
            5 => Some(MessageTag::Bitfield),
            6 => Some(MessageTag::Request),
            7 => Some(MessageTag::Piece),
            8 => Some(MessageTag::Cancel),
            _ => None,
        }
    }
}

/// One framed message: a tag and the bytes that follow it.
#[derive(Debug)]
pub struct Message {
    pub tag: MessageTag,
    pub payload: Vec<u8>,
}

impl View for Message {
    type V = (MessageTag, Seq<u8>);

    open spec fn view(&self) -> (MessageTag, Seq<u8>) {
        (self.tag, self.payload@)
    }
}

#[derive(Debug, Clone, Copy, PartialEq, Eq, Structural)]
pub enum FrameError {
    /// The frame's length prefix exceeds `MAX`.
    TooLarge { length: usize },
    /// A payload to encode is too long for one frame.
    PayloadTooLarge { payload_len: usize },
    /// The tag byte names no message.
    UnknownTag { tag: u8 },
}

/// The bytes of one frame: a big-endian length (tag byte included), the tag,
/// the payload.
pub open spec fn frame_bytes(tag: MessageTag, payload: Seq<u8>) -> Seq<u8> {
    be32_bytes(payload.len() + 1int) + seq![tag_byte(tag)] + payload
}

/// The four bytes of a keepalive frame.
pub open spec fn keepalive() -> Seq<u8> {
    seq![0u8, 0u8, 0u8, 0u8]
}

/// What is left of `s` once the keepalive frames at its front are dropped.
pub open spec fn skip_keepalives(s: Seq<u8>) -> Seq<u8>
    decreases s.len(),
{
    if s.len() >= 4 && be32(s.take(4)) == 0 {
        skip_keepalives(s.skip(4))
    } else {
        s
    }
}

/// The frame at the front of `s`, which starts with no keepalive: `Ok(None)`
/// while it is incomplete.
pub open spec fn parse_frame(s: Seq<u8>) -> Result<Option<(MessageTag, Seq<u8>)>, FrameError> {
    if s.len() < 4 {
        Ok(None)
    } else {
        let n = be32(s.take(4));
        if n > MAX {
            Err(FrameError::TooLarge { length: n as usize })
        } else if s.len() < 4 + n || n == 0 {
            Ok(None)
        } else {
            match tag_of(s[4]) {
                None => Err(FrameError::UnknownTag { tag: s[4] }),
                Some(t) => Ok(Some((t, s.subrange(5, 4 + n)))),
            }
        }
    }
}

/// What is left of `s`, which starts with no keepalive, once its first frame is
/// taken (nothing is taken while none is complete, or on an error).
pub open spec fn after_frame(s: Seq<u8>) -> Seq<u8> {
    match parse_frame(s) {
        Ok(Some(m)) => s.skip(5int + m.1.len()),
        _ => s,
    }
}

/// The view of a decoding result.
pub open spec fn decoded_view(r: Result<Option<Message>, FrameError>) -> Result<
    Option<(MessageTag, Seq<u8>)>,
    FrameError,
> {
    match r {
        Ok(Some(m)) => Ok(Some(m@)),
        Ok(None) => Ok(None),
        Err(e) => Err(e),
    }
}

/// Decoding the frame of a message whose payload has at most 65535 bytes gives
/// back that message, whatever bytes follow the frame, and taking the frame
/// leaves exactly those bytes.
pub proof fn lemma_frame_round_trip(tag: MessageTag, payload: Seq<u8>, rest: Seq<u8>)
    requires
        payload.len() <= 65535,
    ensures
        skip_keepalives(frame_bytes(tag, payload) + rest) == frame_bytes(tag, payload) + rest,
        parse_frame(frame_bytes(tag, payload) + rest) == Ok::<
            Option<(MessageTag, Seq<u8>)>,
            FrameError,
        >(Some((tag, payload))),
        after_frame(frame_bytes(tag, payload) + rest) == rest,
{
    let n = payload.len() + 1int;
    let f = frame_bytes(tag, payload) + rest;
    lemma_be32_bytes(n);
    assert(f.take(4) =~= be32_bytes(n));
    assert(f[4] == tag_byte(tag));
    assert(f.subrange(5, 4 + n) =~= payload);
    assert(f.skip(5int + payload.len()) =~= rest);
}

/// A keepalive frame decodes to nothing: decoding skips its four bytes.
pub proof fn lemma_keepalive_skipped(rest: Seq<u8>)
    ensures
        skip_keepalives(keepalive() + rest) == skip_keepalives(rest),
{
    let f = keepalive() + rest;
    assert(f.take(4) =~= keepalive());
    assert(f.skip(4) =~= rest);
}

/// A frame whose length prefix exceeds `MAX` is a decoding error.
pub proof fn lemma_oversized_frame_rejected(s: Seq<u8>)
    requires
        s.len() >= 4,
        be32(s.take(4)) > MAX,
    ensures
        skip_keepalives(s) == s,
        parse_frame(skip_keepalives(s)) == Err::<Option<(MessageTag, Seq<u8>)>, FrameError>(
            FrameError::TooLarge { length: be32(s.take(4)) as usize },
        ),
{
}

/// Turns a byte stream into messages and messages into bytes.
pub struct MessageFramer;

impl MessageFramer {
    /// Takes the next message off the front of `src`. Keepalive frames before
    /// it are dropped; while the next frame is incomplete nothing more is taken.
    pub fn decode(&mut self, src: &mut BytesMut) -> (r: Result<Option<Message>, FrameError>)
        ensures
            decoded_view(r) == parse_frame(skip_keepalives(buffer_contents(*old(src)))),
            buffer_contents(*final(src)) == after_frame(skip_keepalives(buffer_contents(*old(src)))),
    {
        let ghost t = skip_keepalives(buffer_contents(*src));
        loop
            invariant
                skip_keepalives(buffer_contents(*src)) == t,
                t == skip_keepalives(buffer_contents(*old(src))),
            decreases buffer_contents(*src).len(),
        {
            let ghost s = buffer_contents(*src);
            if buf_len(src) < 4 {
                assert(s == t);
                assert(parse_frame(t) == Ok::<Option<(MessageTag, Seq<u8>)>, FrameError>(None));
                return Ok(None);
            }
            let n = read_be32(buf_byte(src, 0), buf_byte(src, 1), buf_byte(src, 2), buf_byte(src, 3));
            assert(seq![s[0], s[1], s[2], s[3]] =~= s.take(4));
            if n == 0 {
                buf_advance(src, 4);
            } else {
                assert(s == t);
                let length = n as usize;
                if length > MAX {
                    return Err(FrameError::TooLarge { length });
                }
                if buf_len(src) < 4 + length {
                    return Ok(None);
                }
                let tag = match MessageTag::from_byte(buf_byte(src, 4)) {
                    Some(tag) => tag,
                    None => {
                        return Err(FrameError::UnknownTag { tag: buf_byte(src, 4) });
                    },
                };
                let payload = buf_copy(src, 5, 4 + length);
                buf_advance(src, 4 + length);
                return Ok(Some(Message { tag, payload }));
            }
        }
    }

    /// Appends the frame of `item` to `dst`; a payload too long for one frame
    /// is refused and `dst` is left as it was.
    pub fn encode(&mut self, item: Message, dst: &mut BytesMut) -> (r: Result<(), FrameError>)
        ensures
            item.payload.len() + 1 > MAX ==> r == Err::<(), FrameError>(
                FrameError::PayloadTooLarge { payload_len: item.payload.len() },
            ) && buffer_contents(*final(dst)) == buffer_contents(*old(dst)),
            item.payload.len() + 1 <= MAX ==> r == Ok::<(), FrameError>(()) && buffer_contents(
                *final(dst),
            ) == buffer_contents(*old(dst)) + frame_bytes(item.tag, item.payload@),
    {
        if item.payload.len() >= MAX {
            return Err(FrameError::PayloadTooLarge { payload_len: item.payload.len() });
        }
        let len_bytes = write_be32(item.payload.len() as u32 + 1);
        buf_extend(dst, len_bytes.as_slice());
        buf_put_u8(dst, item.tag.to_byte());
        buf_extend(dst, item.payload.as_slice());
        assert(buffer_contents(*dst) =~= buffer_contents(*old(dst)) + frame_bytes(
            item.tag,
            item.payload@,
        ));
        Ok(())
    }
}

} // verus!
