//! The peer wire codec: length-prefixed framing of typed messages, and the
//! fixed-layout request and response payloads, all read and written
//! field by field in big-endian order.

use vstd::prelude::*;

verus! {

/// Largest payload (tag byte included) a frame may carry.
pub const MAX_FRAME: usize = 65536;

/// The nine message kinds of the peer protocol.
#[derive(Clone, Copy, Debug, PartialEq, Eq, Structural)]
pub enum MessageType {
    Choke,
    Unchoke,
    Interested,
    NotInterested,
    Have,
    Bitfield,
    Request,
    Piece,
    Cancel,
}

impl MessageType {
    /// The tag byte that stands for this message kind on the wire.
    pub open spec fn spec_tag(self) -> u8 {
        match self {
            MessageType::Choke => 0,
            MessageType::Unchoke => 1,
            MessageType::Interested => 2,
            MessageType::NotInterested => 3,
            MessageType::Have => 4,
            MessageType::Bitfield => 5,
            MessageType::Request => 6,
            MessageType::Piece => 7,
            MessageType::Cancel => 8,
        }
    }

    /// The message kind a tag byte stands for, if any.
    pub open spec fn spec_from_tag(b: u8) -> Option<MessageType> {
        if b == 0 {
            Some(MessageType::Choke)
        } else if b == 1 {
            Some(MessageType::Unchoke)
        } else if b == 2 {
            Some(MessageType::Interested)
        } else if b == 3 {
            Some(MessageType::NotInterested)
        } else if b == 4 {
            Some(MessageType::Have)
        } else if b == 5 {
            Some(MessageType::Bitfield)
        } else if b == 6 {
            Some(MessageType::Request)
        } else if b == 7 {
            Some(MessageType::Piece)
        } else if b == 8 {
            Some(MessageType::Cancel)
        } else {
            None
        }
    }

    pub fn to_byte(self) -> (r: u8)
        ensures
            r == self.spec_tag(),
    {
        match self {
            MessageType::Choke => 0,
            MessageType::Unchoke => 1,
            MessageType::Interested => 2,
            MessageType::NotInterested => 3,
            MessageType::Have => 4,
            MessageType::Bitfield => 5,
            MessageType::Request => 6,
            MessageType::Piece => 7,
            MessageType::Cancel => 8,
        }
    }

    pub fn from_byte(b: u8) -> (r: Option<MessageType>)
        ensures
            r == MessageType::spec_from_tag(b),
    {
        if b == 0 {
            Some(MessageType::Choke)
        } else if b == 1 {
            Some(MessageType::Unchoke)
        } else if b == 2 {
            Some(MessageType::Interested)
        } else if b == 3 {
            Some(MessageType::NotInterested)
        } else if b == 4 {
            Some(MessageType::Have)
        } else if b == 5 {
            Some(MessageType::Bitfield)
        } else if b == 6 {
            Some(MessageType::Request)
        } else if b == 7 {
            Some(MessageType::Piece)
        } else if b == 8 {
            Some(MessageType::Cancel)
        } else {
            None
        }
    }
}

/// One framed message: its kind and its payload (the bytes after the tag).
#[derive(Clone, Debug)]
pub struct Message {
    pub typ: MessageType,
    pub payload: Vec<u8>,
}

/// What the codec can fail with; both faults are fatal for a session.
#[derive(Clone, Copy, Debug, PartialEq, Eq, Structural)]
pub enum WireError {
    FrameTooLarge,
    InvalidMessageType,
}

/// The four bytes of `n` in big-endian order.
pub open spec fn spec_u32_be(n: u32) -> Seq<u8> {
    seq![
        (n / 0x1000000) as u8,
        ((n / 0x10000) % 0x100) as u8,
        ((n / 0x100) % 0x100) as u8,
        (n % 0x100) as u8,
    ]
}

/// The value four big-endian bytes stand for.
pub open spec fn spec_u32_from_be(b0: u8, b1: u8, b2: u8, b3: u8) -> u32 {
    (b0 * 0x1000000 + b1 * 0x10000 + b2 * 0x100 + b3) as u32
}

pub proof fn lemma_u32_be_round(n: u32)
    ensures
        spec_u32_from_be(
            spec_u32_be(n)[0],
            spec_u32_be(n)[1],
            spec_u32_be(n)[2],
            spec_u32_be(n)[3],
        ) == n,
{
    assert((n / 0x1000000) * 0x1000000 + ((n / 0x10000) % 0x100) * 0x10000 + ((n / 0x100) % 0x100)
        * 0x100 + n % 0x100 == n) by (nonlinear_arith);
}

/// Append the four big-endian bytes of `n` to `out`.
pub fn write_u32_be(out: &mut Vec<u8>, n: u32)
    ensures
        final(out)@ == old(out)@ + spec_u32_be(n),
{
    out.push((n / 0x1000000) as u8);
    out.push(((n / 0x10000) % 0x100) as u8);
    out.push(((n / 0x100) % 0x100) as u8);
    out.push((n % 0x100) as u8);
    assert(final(out)@ =~= old(out)@ + spec_u32_be(n));
}

/// Read the value that four big-endian bytes stand for.
pub fn read_u32_be(b0: u8, b1: u8, b2: u8, b3: u8) -> (r: u32)
    ensures
        r == spec_u32_from_be(b0, b1, b2, b3),
{
    assert(b0 * 0x1000000 + b1 * 0x10000 + b2 * 0x100 + b3 <= 0xffffffff) by (nonlinear_arith);
    (b0 as u32) * 0x1000000 + (b1 as u32) * 0x10000 + (b2 as u32) * 0x100 + (b3 as u32)
}

/// The exact bytes a message is framed as: a four-byte big-endian length
/// (payload plus one for the tag), the tag byte, then the payload.
pub open spec fn spec_encode(typ: MessageType, payload: Seq<u8>) -> Seq<u8> {
    spec_u32_be((payload.len() + 1) as u32) + seq![typ.spec_tag()] + payload
}

/// What one decoding step makes of a buffer: more bytes are needed, a fatal
/// fault was seen, or one frame was read. `consumed` counts the bytes the
/// step removes from the front of the buffer (keep-alive frames included).
pub enum SpecDecoded {
    NeedMore { consumed: int },
    TooLarge { consumed: int },
    BadTag { consumed: int },
    Frame { typ: MessageType, payload: Seq<u8>, consumed: int },
}

/// The same outcome with `k` more consumed bytes in front of it.
pub open spec fn spec_bump(d: SpecDecoded, k: int) -> SpecDecoded {
    match d {
        SpecDecoded::NeedMore { consumed } => SpecDecoded::NeedMore { consumed: consumed + k },
        SpecDecoded::TooLarge { consumed } => SpecDecoded::TooLarge { consumed: consumed + k },
        SpecDecoded::BadTag { consumed } => SpecDecoded::BadTag { consumed: consumed + k },
        SpecDecoded::Frame { typ, payload, consumed } => SpecDecoded::Frame {
            typ,
            payload,
            consumed: consumed + k,
        },
    }
}

/// What decoding reads out of `buf`: leading keep-alive frames (length zero)
/// are consumed and skipped; a header declaring more than `MAX_FRAME` bytes
/// is fatal; a tag outside the nine kinds is fatal; otherwise one whole frame
/// is consumed, or the buffer is left as it is until more bytes arrive.
pub open spec fn spec_decode(buf: Seq<u8>) -> SpecDecoded
    decreases buf.len(),
{
    if buf.len() < 4 {
        SpecDecoded::NeedMore { consumed: 0 }
    } else {
        let length = spec_u32_from_be(buf[0], buf[1], buf[2], buf[3]) as int;
        if length == 0 {
            spec_bump(spec_decode(buf.skip(4)), 4)
        } else if length > MAX_FRAME {
            SpecDecoded::TooLarge { consumed: 0 }
        } else if buf.len() < 4 + length {
            SpecDecoded::NeedMore { consumed: 0 }
        } else {
            match MessageType::spec_from_tag(buf[4]) {
                Some(t) => SpecDecoded::Frame {
                    typ: t,
                    payload: buf.subrange(5, 4 + length),
                    consumed: 4 + length,
                },
                None => SpecDecoded::BadTag { consumed: 0 },
            }
        }
    }
}

/// Remove the first `n` bytes of `v`, keeping the rest in order.
pub fn drain_front(v: &mut Vec<u8>, n: usize)
    requires
        n <= old(v)@.len(),
    ensures
        final(v)@ == old(v)@.skip(n as int),
{
    let mut out: Vec<u8> = Vec::new();
    let mut i: usize = n;
    while i < v.len()
        invariant
            v@ == old(v)@,
            n <= i <= v@.len(),
            out@ == old(v)@.subrange(n as int, i as int),
        decreases v@.len() - i,
    {
        let b: u8 = v[i];
        out.push(b);
        assert(out@ =~= old(v)@.subrange(n as int, i + 1));
        i = i + 1;
    }
    assert(out@ =~= old(v)@.skip(n as int));
    *v = out;
}

/// Frames messages for the wire and recovers them from an accumulating
/// byte buffer.
pub struct MessageFramer;

impl MessageFramer {
    /// Append the framed form of `item` to `dst`, or refuse a payload the
    /// other end would not accept.
    pub fn encode(&self, item: &Message, dst: &mut Vec<u8>) -> (r: Result<(), WireError>)
        ensures
            match r {
                Ok(()) => item.payload@.len() + 1 <= MAX_FRAME && final(dst)@ == old(dst)@
                    + spec_encode(item.typ, item.payload@),
                Err(e) => e == WireError::FrameTooLarge && item.payload@.len() + 1 > MAX_FRAME
                    && final(dst)@ == old(dst)@,
            },
    {
        if item.payload.len() >= MAX_FRAME {
            return Err(WireError::FrameTooLarge);
        }
        let length: u32 = (item.payload.len() + 1) as u32;
        write_u32_be(dst, length);
        dst.push(item.typ.to_byte());
        let mut i: usize = 0;
        while i < item.payload.len()
            invariant
                i <= item.payload@.len(),
                dst@ == old(dst)@ + spec_u32_be((item.payload@.len() + 1) as u32) + seq![
                    item.typ.spec_tag(),
                ] + item.payload@.subrange(0, i as int),
            decreases item.payload@.len() - i,
        {
            let b: u8 = item.payload[i];
            dst.push(b);
            assert(dst@ =~= old(dst)@ + spec_u32_be((item.payload@.len() + 1) as u32) + seq![
                item.typ.spec_tag(),
            ] + item.payload@.subrange(0, i + 1));
            i = i + 1;
        }
        assert(item.payload@.subrange(0, item.payload@.len() as int) =~= item.payload@);
        assert(final(dst)@ =~= old(dst)@ + spec_encode(item.typ, item.payload@));
        Ok(())
    }

    /// Take one frame out of the front of `src`, if a whole one has arrived.
    /// Keep-alive frames in front of it are consumed without producing a
    /// message; an over-length header or an unknown tag is a fatal fault and
    /// leaves the offending header in the buffer.
    pub fn decode(&self, src: &mut Vec<u8>) -> (r: Result<Option<Message>, WireError>)
        ensures
            match r {
                Ok(None) => spec_decode(old(src)@) matches SpecDecoded::NeedMore { consumed }
                    && final(src)@ == old(src)@.skip(consumed),
                Ok(Some(msg)) => spec_decode(old(src)@) matches SpecDecoded::Frame {
                    typ,
                    payload,
                    consumed,
                } && msg.typ == typ && msg.payload@ == payload && final(src)@ == old(src)@.skip(
                    consumed,
                ),
                Err(WireError::FrameTooLarge) => spec_decode(old(src)@)
                    matches SpecDecoded::TooLarge { consumed } && final(src)@ == old(src)@.skip(
                    consumed,
                ),
                Err(WireError::InvalidMessageType) => spec_decode(old(src)@)
                    matches SpecDecoded::BadTag { consumed } && final(src)@ == old(src)@.skip(
                    consumed,
                ),
            },
    {
        let ghost orig: Seq<u8> = old(src)@;
        let ghost mut skipped: int = 0;
        proof {
            assert(orig.skip(0) =~= orig);
        }
        loop
            invariant
                orig == old(src)@,
                0 <= skipped <= orig.len(),
                src@ == orig.skip(skipped),
                spec_decode(orig) == spec_bump(spec_decode(src@), skipped),
            decreases src@.len(),
        {
            if src.len() < 4 {
                assert(spec_decode(src@) == (SpecDecoded::NeedMore { consumed: 0 }));
                assert(spec_decode(orig) == (SpecDecoded::NeedMore { consumed: skipped }));
                return Ok(None);
            }
            let b0: u8 = src[0];
            let b1: u8 = src[1];
            let b2: u8 = src[2];
            let b3: u8 = src[3];
            let len32: u32 = read_u32_be(b0, b1, b2, b3);
            if len32 == 0 {
                proof {
                    assert(spec_decode(src@) == spec_bump(spec_decode(src@.skip(4)), 4));
                    lemma_bump_bump(spec_decode(src@.skip(4)), 4, skipped);
                    lemma_skip_skip(orig, skipped, 4);
                    skipped = skipped + 4;
                }
                drain_front(src, 4);
                continue ;
            }
            let length: usize = len32 as usize;
            if length > MAX_FRAME {
                assert(spec_decode(src@) == (SpecDecoded::TooLarge { consumed: 0 }));
                assert(spec_decode(orig) == (SpecDecoded::TooLarge { consumed: skipped }));
                return Err(WireError::FrameTooLarge);
            }
            if src.len() < 4 + length {
                assert(spec_decode(src@) == (SpecDecoded::NeedMore { consumed: 0 }));
                assert(spec_decode(orig) == (SpecDecoded::NeedMore { consumed: skipped }));
                return Ok(None);
            }
            let tag: u8 = src[4];
            let typ_opt: Option<MessageType> = MessageType::from_byte(tag);
            match typ_opt {
                None => {
                    assert(spec_decode(src@) == (SpecDecoded::BadTag { consumed: 0 }));
                    assert(spec_decode(orig) == (SpecDecoded::BadTag { consumed: skipped }));
                    return Err(WireError::InvalidMessageType);
                },
                Some(typ) => {
                    assert(spec_decode(src@) == (SpecDecoded::Frame {
                        typ,
                        payload: src@.subrange(5, 4 + length as int),
                        consumed: 4 + length as int,
                    }));
                    let ghost before: Seq<u8> = src@;
                    let mut payload: Vec<u8> = Vec::new();
                    let mut i: usize = 5;
                    while i < 4 + length
                        invariant
                            length <= MAX_FRAME,
                            src@ == before,
                            4 + length <= src@.len(),
                            5 <= i <= 4 + length,
                            payload@ == src@.subrange(5, i as int),
                        decreases 4 + length - i,
                    {
                        let b: u8 = src[i];
                        payload.push(b);
                        assert(payload@ =~= src@.subrange(5, i + 1));
                        i = i + 1;
                    }
                    proof {
                        lemma_skip_skip(orig, skipped, 4 + length as int);
                    }
                    drain_front(src, 4 + length);
                    return Ok(Some(Message { typ, payload }));
                },
            }
        }
    }
}

proof fn lemma_bump_bump(d: SpecDecoded, a: int, b: int)
    ensures
        spec_bump(spec_bump(d, a), b) == spec_bump(d, a + b),
{
}

proof fn lemma_skip_skip(s: Seq<u8>, a: int, b: int)
    requires
        0 <= a,
        0 <= b,
        a + b <= s.len(),
    ensures
        s.skip(a).skip(b) == s.skip(a + b),
{
    assert(s.skip(a).skip(b) =~= s.skip(a + b));
}

/// Round-trip framing: a frame the encoder accepts is decoded back to the
/// very message it was made from, consuming exactly the frame's bytes.
pub proof fn lemma_round_trip(typ: MessageType, payload: Seq<u8>)
    requires
        payload.len() + 1 <= MAX_FRAME,
    ensures
        spec_decode(spec_encode(typ, payload)) == (SpecDecoded::Frame {
            typ,
            payload,
            consumed: 5 + payload.len() as int,
        }),
{
    let buf = spec_encode(typ, payload);
    let length = (payload.len() + 1) as u32;
    lemma_u32_be_round(length);
    assert(buf[0] == spec_u32_be(length)[0]);
    assert(buf[1] == spec_u32_be(length)[1]);
    assert(buf[2] == spec_u32_be(length)[2]);
    assert(buf[3] == spec_u32_be(length)[3]);
    assert(spec_u32_from_be(buf[0], buf[1], buf[2], buf[3]) == length);
    assert(buf[4] == typ.spec_tag());
    assert(MessageType::spec_from_tag(typ.spec_tag()) == Some(typ));
    assert(buf.subrange(5, 4 + length as int) =~= payload);
}

/// A keep-alive frame (four zero bytes) is consumed without producing a
/// message: whatever follows it decodes exactly as it would alone.
pub proof fn lemma_keep_alive_consumed(rest: Seq<u8>)
    ensures
        spec_decode(seq![0u8, 0u8, 0u8, 0u8] + rest) == spec_bump(spec_decode(rest), 4),
{
    let buf = seq![0u8, 0u8, 0u8, 0u8] + rest;
    assert(spec_u32_from_be(buf[0], buf[1], buf[2], buf[3]) == 0);
    assert(buf.skip(4) =~= rest);
}

/// Length overflow rejection: a header declaring more than `MAX_FRAME` bytes
/// is refused outright, however few of those bytes have arrived.
pub proof fn lemma_over_length_rejected(buf: Seq<u8>)
    requires
        buf.len() >= 4,
        spec_u32_from_be(buf[0], buf[1], buf[2], buf[3]) > MAX_FRAME,
    ensures
        spec_decode(buf) == (SpecDecoded::TooLarge { consumed: 0 }),
{
}

/// The twelve-byte payload of a Request (or Cancel) message: piece index,
/// byte offset within the piece, and requested length, big-endian each.
#[derive(Debug)]
pub struct PieceRequest {
    index: u32,
    begin: u32,
    length: u32,
}

impl PieceRequest {
    pub closed spec fn spec_index(&self) -> u32 {
        self.index
    }

    pub closed spec fn spec_begin(&self) -> u32 {
        self.begin
    }

    pub closed spec fn spec_length(&self) -> u32 {
        self.length
    }

    pub fn new(index: u32, begin: u32, length: u32) -> (r: PieceRequest)
        ensures
            r.spec_index() == index,
            r.spec_begin() == begin,
            r.spec_length() == length,
    {
        PieceRequest { index, begin, length }
    }

    pub fn index(&self) -> (r: u32)
        ensures
            r == self.spec_index(),
    {
        self.index
    }

    pub fn begin(&self) -> (r: u32)
        ensures
            r == self.spec_begin(),
    {
        self.begin
    }

    pub fn length(&self) -> (r: u32)
        ensures
            r == self.spec_length(),
    {
        self.length
    }

    /// The payload bytes of the request: three big-endian fields, no padding.
    pub fn to_bytes(&self) -> (r: Vec<u8>)
        ensures
            r@ == spec_u32_be(self.spec_index()) + spec_u32_be(self.spec_begin()) + spec_u32_be(
                self.spec_length(),
            ),
            r@.len() == 12,
    {
        let mut out: Vec<u8> = Vec::new();
        write_u32_be(&mut out, self.index);
        write_u32_be(&mut out, self.begin);
        write_u32_be(&mut out, self.length);
        assert(out@ =~= spec_u32_be(self.index) + spec_u32_be(self.begin) + spec_u32_be(
            self.length,
        ));
        out
    }
}

/// The payload of a Piece message: piece index and byte offset, big-endian,
/// followed by the block bytes themselves.
#[derive(Debug)]
pub struct PieceResponse {
    index: u32,
    begin: u32,
    block: Vec<u8>,
}

impl PieceResponse {
    pub closed spec fn spec_index(&self) -> u32 {
        self.index
    }

    pub closed spec fn spec_begin(&self) -> u32 {
        self.begin
    }

    pub closed spec fn spec_block(&self) -> Seq<u8> {
        self.block@
    }

    /// Read the two leading fields and the trailing block out of a Piece
    /// payload; payloads shorter than the eight-byte lead are refused.
    pub fn from_bytes(data: &Vec<u8>) -> (r: Option<PieceResponse>)
        ensures
            match r {
                Some(p) => data@.len() >= 8 && p.spec_index() == spec_u32_from_be(
                    data@[0],
                    data@[1],
                    data@[2],
                    data@[3],
                ) && p.spec_begin() == spec_u32_from_be(data@[4], data@[5], data@[6], data@[7])
                    && p.spec_block() == data@.skip(8),
                None => data@.len() < 8,
            },
    {
        if data.len() < 8 {
            return None;
        }
        let index: u32 = read_u32_be(data[0], data[1], data[2], data[3]);
        let begin: u32 = read_u32_be(data[4], data[5], data[6], data[7]);
        let mut block: Vec<u8> = Vec::new();
        let mut i: usize = 8;
        while i < data.len()
            invariant
                8 <= i <= data@.len(),
                block@ == data@.subrange(8, i as int),
            decreases data@.len() - i,
        {
            let b: u8 = data[i];
            block.push(b);
            assert(block@ =~= data@.subrange(8, i + 1));
            i = i + 1;
        }
        assert(block@ =~= data@.skip(8));
        Some(PieceResponse { index, begin, block })
    }

    pub fn index(&self) -> (r: u32)
        ensures
            r == self.spec_index(),
    {
        self.index
    }

    pub fn begin(&self) -> (r: u32)
        ensures
            r == self.spec_begin(),
    {
        self.begin
    }

    pub fn block(&self) -> (r: &Vec<u8>)
        ensures
            r@ == self.spec_block(),
    {
        &self.block
    }
}

} // verus!
