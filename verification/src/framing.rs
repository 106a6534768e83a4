//! Length-prefixed framing of packets on a byte stream.
//!
//! Every packet travels as a header that holds the payload length, followed by
//! the payload itself. Two header layouts are in use: a big-endian `u32` (the
//! `TokioTcpStream*` providers) and a little-endian `u64` (the `Tcp*` providers).
//! A receiver refuses any frame whose announced length exceeds its configured
//! maximum, before it reads the body.
use vstd::prelude::*;

verus! {

/// The default limit on the size of a packet: 10 MiB.
pub const DEFAULT_MAX_PACKET_LENGTH: usize = 10 * 1024 * 1024;

/// The layout of the length header that precedes every payload.
#[derive(Clone, Copy, Debug, PartialEq, Eq, Structural)]
pub enum FrameFormat {
    /// Four bytes, most significant first.
    U32BigEndian,
    /// Eight bytes, least significant first.
    U64LittleEndian,
}

/// The bytes of `v`, most significant first.
pub open spec fn be32_bytes(v: u32) -> Seq<u8> {
    seq![
        ((v >> 24u32) & 0xffu32) as u8,
        ((v >> 16u32) & 0xffu32) as u8,
        ((v >> 8u32) & 0xffu32) as u8,
        (v & 0xffu32) as u8,
    ]
}

/// The number whose big-endian bytes are `b[0..4]`.
pub open spec fn be32_value(b0: u8, b1: u8, b2: u8, b3: u8) -> u32 {
    ((b0 as u32) << 24u32) | ((b1 as u32) << 16u32) | ((b2 as u32) << 8u32) | (b3 as u32)
}

/// The bytes of `v`, least significant first.
pub open spec fn le64_bytes(v: u64) -> Seq<u8> {
    seq![
        (v & 0xffu64) as u8,
        ((v >> 8u64) & 0xffu64) as u8,
        ((v >> 16u64) & 0xffu64) as u8,
        ((v >> 24u64) & 0xffu64) as u8,
        ((v >> 32u64) & 0xffu64) as u8,
        ((v >> 40u64) & 0xffu64) as u8,
        ((v >> 48u64) & 0xffu64) as u8,
        ((v >> 56u64) & 0xffu64) as u8,
    ]
}

/// The number whose little-endian bytes are the eight arguments.
pub open spec fn le64_value(b0: u8, b1: u8, b2: u8, b3: u8, b4: u8, b5: u8, b6: u8, b7: u8) -> u64 {
    (b0 as u64) | ((b1 as u64) << 8u64) | ((b2 as u64) << 16u64) | ((b3 as u64) << 24u64) | ((
    b4 as u64) << 32u64) | ((b5 as u64) << 40u64) | ((b6 as u64) << 48u64) | ((b7 as u64)
        << 56u64)
}

impl FrameFormat {
    /// The number of bytes in a header of this layout.
    pub open spec fn header_len(self) -> nat {
        match self {
            FrameFormat::U32BigEndian => 4,
            FrameFormat::U64LittleEndian => 8,
        }
    }

    /// The largest payload length that a header of this layout can announce.
    pub open spec fn max_announced(self) -> nat {
        match self {
            FrameFormat::U32BigEndian => u32::MAX as nat,
            FrameFormat::U64LittleEndian => u64::MAX as nat,
        }
    }

    /// The header written in front of a payload of `len` bytes. The length is
    /// cut down to the width of the header, as a cast to `u32` (or `u64`) does.
    pub open spec fn header_bytes(self, len: nat) -> Seq<u8> {
        match self {
            FrameFormat::U32BigEndian => be32_bytes(len as u32),
            FrameFormat::U64LittleEndian => le64_bytes(len as u64),
        }
    }

    /// The payload length announced by the header at the start of `b`.
    pub open spec fn header_value(self, b: Seq<u8>) -> nat
        recommends
            b.len() >= self.header_len(),
    {
        match self {
            FrameFormat::U32BigEndian => be32_value(b[0], b[1], b[2], b[3]) as nat,
            FrameFormat::U64LittleEndian => le64_value(
                b[0],
                b[1],
                b[2],
                b[3],
                b[4],
                b[5],
                b[6],
                b[7],
            ) as nat,
        }
    }

    /// The complete frame of a payload: its header, then the payload.
    pub open spec fn frame_bytes(self, payload: Seq<u8>) -> Seq<u8> {
        self.header_bytes(payload.len()) + payload
    }

    /// The number of bytes in a header of this layout.
    pub fn header_size(&self) -> (r: usize)
        ensures
            r == self.header_len(),
    {
        match self {
            FrameFormat::U32BigEndian => 4,
            FrameFormat::U64LittleEndian => 8,
        }
    }
}

/// What the front of a byte stream holds, for a reader with a length limit.
pub enum FrameParse {
    /// Not enough bytes have arrived yet.
    Incomplete,
    /// The header announces a payload longer than the limit.
    TooLarge(nat),
    /// A whole frame: its payload, and the number of bytes it takes up.
    Complete(Seq<u8>, nat),
}

/// How the start of `bytes` decodes as a frame of layout `format`, for a
/// receiver that accepts payloads of at most `max` bytes.
pub open spec fn parse_frame(format: FrameFormat, bytes: Seq<u8>, max: nat) -> FrameParse {
    let h = format.header_len();
    if bytes.len() < h {
        FrameParse::Incomplete
    } else {
        let n = format.header_value(bytes);
        if n > max {
            FrameParse::TooLarge(n)
        } else if bytes.len() < h + n {
            FrameParse::Incomplete
        } else {
            FrameParse::Complete(bytes.subrange(h as int, (h + n) as int), h + n)
        }
    }
}

/// The payloads of the whole frames at the front of `bytes`, in order, up to
/// the first incomplete or oversized frame.
pub open spec fn parse_frames(format: FrameFormat, bytes: Seq<u8>, max: nat) -> Seq<Seq<u8>>
    decreases bytes.len(),
{
    match parse_frame(format, bytes, max) {
        FrameParse::Complete(payload, used) => {
            if 0 < used <= bytes.len() {
                seq![payload] + parse_frames(format, bytes.skip(used as int), max)
            } else {
                seq![]
            }
        },
        _ => seq![],
    }
}

/// The frames of all payloads, one after the other.
pub open spec fn frames_of(format: FrameFormat, payloads: Seq<Seq<u8>>) -> Seq<u8>
    decreases payloads.len(),
{
    if payloads.len() == 0 {
        seq![]
    } else {
        format.frame_bytes(payloads[0]) + frames_of(format, payloads.drop_first())
    }
}

/// A payload that a receiver with limit `max` accepts and that the header can
/// announce without loss.
pub open spec fn fits(format: FrameFormat, payload: Seq<u8>, max: nat) -> bool {
    payload.len() <= max && payload.len() <= format.max_announced()
}

proof fn lemma_be32_roundtrip(v: u32)
    ensures
        be32_value(be32_bytes(v)[0], be32_bytes(v)[1], be32_bytes(v)[2], be32_bytes(v)[3]) == v,
{
    assert(be32_value(
        ((v >> 24u32) & 0xffu32) as u8,
        ((v >> 16u32) & 0xffu32) as u8,
        ((v >> 8u32) & 0xffu32) as u8,
        (v & 0xffu32) as u8,
    ) == v) by (bit_vector);
}

proof fn lemma_le64_roundtrip(v: u64)
    ensures
        ({
            let b = le64_bytes(v);
            le64_value(b[0], b[1], b[2], b[3], b[4], b[5], b[6], b[7]) == v
        }),
{
    assert(le64_value(
        (v & 0xffu64) as u8,
        ((v >> 8u64) & 0xffu64) as u8,
        ((v >> 16u64) & 0xffu64) as u8,
        ((v >> 24u64) & 0xffu64) as u8,
        ((v >> 32u64) & 0xffu64) as u8,
        ((v >> 40u64) & 0xffu64) as u8,
        ((v >> 48u64) & 0xffu64) as u8,
        ((v >> 56u64) & 0xffu64) as u8,
    ) == v) by (bit_vector);
}

/// A header announces the length it was written for, whenever that length
/// fits the header.
pub proof fn lemma_header_roundtrip(format: FrameFormat, len: nat, rest: Seq<u8>)
    requires
        len <= format.max_announced(),
    ensures
        format.header_bytes(len).len() == format.header_len(),
        format.header_value(format.header_bytes(len) + rest) == len,
{
    match format {
        FrameFormat::U32BigEndian => {
            let v = len as u32;
            assert(v == len);
            lemma_be32_roundtrip(v);
        },
        FrameFormat::U64LittleEndian => {
            let v = len as u64;
            assert(v == len);
            lemma_le64_roundtrip(v);
        },
    }
}

/// Decoding gives back an encoded payload: whatever bytes follow its frame, a
/// receiver finds exactly that payload at the front of the stream, and the
/// whole frame is consumed.
pub proof fn lemma_frame_roundtrip(format: FrameFormat, payload: Seq<u8>, rest: Seq<u8>, max: nat)
    requires
        fits(format, payload, max),
    ensures
        parse_frame(format, format.frame_bytes(payload) + rest, max) == FrameParse::Complete(
            payload,
            format.frame_bytes(payload).len(),
        ),
{
    let h = format.header_bytes(payload.len());
    let bytes = format.frame_bytes(payload) + rest;
    assert(bytes == h + (payload + rest));
    lemma_header_roundtrip(format, payload.len(), payload + rest);
    assert(bytes.subrange(
        format.header_len() as int,
        (format.header_len() + payload.len()) as int,
    ) =~= payload);
}

/// A frame whose payload exceeds the receiver's limit is refused as soon as its
/// header has arrived, before any of the payload is read.
pub proof fn lemma_oversized_refused(
    format: FrameFormat,
    payload: Seq<u8>,
    received: Seq<u8>,
    max: nat,
)
    requires
        payload.len() > max,
        payload.len() <= format.max_announced(),
        format.header_len() <= received.len() <= format.frame_bytes(payload).len(),
        received == format.frame_bytes(payload).take(received.len() as int),
    ensures
        parse_frame(format, received, max) == FrameParse::TooLarge(payload.len()),
{
    let h = format.header_bytes(payload.len());
    let tail = received.skip(h.len() as int);
    lemma_header_roundtrip(format, payload.len(), tail);
    assert(received =~= h + tail);
}

/// A stream that starts with the frame of a fitting payload decodes into that
/// payload, followed by what the rest of the stream decodes into.
pub proof fn lemma_parse_frames_cons(format: FrameFormat, p: Seq<u8>, rest: Seq<u8>, max: nat)
    requires
        fits(format, p, max),
    ensures
        parse_frames(format, format.frame_bytes(p) + rest, max) == seq![p] + parse_frames(
            format,
            rest,
            max,
        ),
{
    let bytes = format.frame_bytes(p) + rest;
    lemma_frame_roundtrip(format, p, rest, max);
    lemma_header_roundtrip(format, p.len(), rest);
    let used = format.frame_bytes(p).len();
    assert(0 < used <= bytes.len());
    assert(bytes.skip(used as int) =~= rest);
}

/// No frames make an empty stream, which holds no payload.
proof fn lemma_empty_stream(format: FrameFormat, payloads: Seq<Seq<u8>>, max: nat)
    requires
        payloads.len() == 0,
    ensures
        parse_frames(format, frames_of(format, payloads), max) == payloads,
{
    assert(frames_of(format, payloads) == Seq::<u8>::empty());
    assert(parse_frame(format, Seq::<u8>::empty(), max) == FrameParse::Incomplete);
    assert(parse_frames(format, Seq::<u8>::empty(), max) =~= payloads);
}

/// A stream made of frames decodes into the payloads that were framed, in the
/// order in which they were sent.
pub proof fn lemma_stream_roundtrip(format: FrameFormat, payloads: Seq<Seq<u8>>, max: nat)
    requires
        forall|i: int| 0 <= i < payloads.len() ==> fits(format, #[trigger] payloads[i], max),
    ensures
        parse_frames(format, frames_of(format, payloads), max) == payloads,
    decreases payloads.len(),
{
    if payloads.len() == 0 {
        lemma_empty_stream(format, payloads, max);
    } else {
        let p = payloads[0];
        let tail = payloads.drop_first();
        assert(fits(format, payloads[0], max));
        assert forall|i: int| 0 <= i < tail.len() implies fits(format, #[trigger] tail[i], max) by {
            assert(tail[i] == payloads[i + 1]);
        }
        lemma_stream_roundtrip(format, tail, max);
        lemma_parse_frames_cons(format, p, frames_of(format, tail), max);
        assert(frames_of(format, payloads) == format.frame_bytes(p) + frames_of(format, tail));
        assert(seq![p] + tail =~= payloads);
        assert(parse_frames(format, frames_of(format, payloads), max) == seq![p] + tail);
    }
}

/// A receiver refuses a frame only for its announced length: whenever the
/// decoding of a stream is a refusal, a whole header has arrived and it
/// announces more than the limit.
pub proof fn law_refusal_only_above_limit(format: FrameFormat, bytes: Seq<u8>, max: nat)
    ensures
        parse_frame(format, bytes, max) matches FrameParse::TooLarge(n) ==> {
            &&& bytes.len() >= format.header_len()
            &&& n == format.header_value(bytes)
            &&& n > max
        },
{
}

/// Every proper prefix of the frame of a payload that the receiver accepts
/// decodes as incomplete: a receiver neither refuses such a frame nor decodes
/// anything from it before the whole frame has arrived.
pub proof fn law_fitting_prefix_incomplete(
    format: FrameFormat,
    payload: Seq<u8>,
    received: nat,
    max: nat,
)
    requires
        fits(format, payload, max),
        received < format.frame_bytes(payload).len(),
    ensures
        parse_frame(format, format.frame_bytes(payload).take(received as int), max)
            == FrameParse::Incomplete,
{
    let frame = format.frame_bytes(payload);
    let bytes = frame.take(received as int);
    let h = format.header_bytes(payload.len());
    lemma_header_roundtrip(format, payload.len(), seq![]);
    if received >= format.header_len() {
        let tail = bytes.skip(h.len() as int);
        lemma_header_roundtrip(format, payload.len(), tail);
        assert(bytes =~= h + tail);
    }
}

/// Why a receiver refuses the stream.
#[derive(Clone, Copy, Debug, PartialEq, Eq, Structural)]
pub enum FrameError {
    /// A header announced a payload of `length` bytes, more than the limit
    /// `max` of the receiver.
    TooLarge { length: u64, max: usize },
}

/// What the front of a received byte buffer holds.
#[derive(Debug)]
pub enum FrameStatus {
    /// More bytes are needed before anything can be decided.
    Incomplete,
    /// A whole frame: its payload and the number of bytes it occupies.
    Complete { payload: Vec<u8>, consumed: usize },
    /// The header announces more than the receiver accepts.
    Refused(FrameError),
}

impl FrameStatus {
    /// The decoding that this status reports. Of a refusal it keeps the
    /// announced length; the limit that the refusal names is stated by
    /// [`decode_frame`] in a clause of its own.
    pub open spec fn spec_parse(&self) -> FrameParse {
        match self {
            FrameStatus::Incomplete => FrameParse::Incomplete,
            FrameStatus::Complete { payload, consumed } => FrameParse::Complete(
                payload@,
                *consumed as nat,
            ),
            FrameStatus::Refused(FrameError::TooLarge { length, .. }) => FrameParse::TooLarge(
                *length as nat,
            ),
        }
    }
}

/// Copies `bytes[start..end]` into a new vector.
fn copy_range(bytes: &[u8], start: usize, end: usize) -> (r: Vec<u8>)
    requires
        start <= end <= bytes@.len(),
    ensures
        r@ == bytes@.subrange(start as int, end as int),
{
    let mut r: Vec<u8> = Vec::with_capacity(end - start);
    let mut i = start;
    while i < end
        invariant
            start <= i <= end <= bytes@.len(),
            r@ == bytes@.subrange(start as int, i as int),
        decreases end - i,
    {
        r.push(bytes[i]);
        i = i + 1;
        assert(r@ =~= bytes@.subrange(start as int, i as int));
    }
    r
}

/// Writes the header for a payload of `len` bytes in the given layout. As in
/// a cast, a length beyond the width of the header keeps only its low bits.
pub fn encode_header(format: FrameFormat, len: usize) -> (r: Vec<u8>)
    ensures
        r@ == format.header_bytes(len as nat),
{
    match format {
        FrameFormat::U32BigEndian => {
            let v: u32 = len as u32;
            let mut r: Vec<u8> = Vec::with_capacity(4);
            r.push(((v >> 24u32) & 0xffu32) as u8);
            r.push(((v >> 16u32) & 0xffu32) as u8);
            r.push(((v >> 8u32) & 0xffu32) as u8);
            r.push((v & 0xffu32) as u8);
            assert(r@ =~= be32_bytes(v));
            r
        },
        FrameFormat::U64LittleEndian => {
            let v: u64 = len as u64;
            let mut r: Vec<u8> = Vec::with_capacity(8);
            r.push((v & 0xffu64) as u8);
            r.push(((v >> 8u64) & 0xffu64) as u8);
            r.push(((v >> 16u64) & 0xffu64) as u8);
            r.push(((v >> 24u64) & 0xffu64) as u8);
            r.push(((v >> 32u64) & 0xffu64) as u8);
            r.push(((v >> 40u64) & 0xffu64) as u8);
            r.push(((v >> 48u64) & 0xffu64) as u8);
            r.push(((v >> 56u64) & 0xffu64) as u8);
            assert(r@ =~= le64_bytes(v));
            r
        },
    }
}

/// Frames a payload: its header, followed by the payload.
pub fn encode_frame(format: FrameFormat, payload: &[u8]) -> (r: Vec<u8>)
    ensures
        r@ == format.frame_bytes(payload@),
{
    let mut r = encode_header(format, payload.len());
    let mut i: usize = 0;
    let ghost h = r@;
    while i < payload.len()
        invariant
            i <= payload@.len(),
            h == format.header_bytes(payload@.len()),
            r@ == h + payload@.take(i as int),
        decreases payload@.len() - i,
    {
        r.push(payload[i]);
        i = i + 1;
        assert(r@ =~= h + payload@.take(i as int));
    }
    assert(payload@.take(i as int) =~= payload@);
    r
}

/// Reads the payload length that the header at the start of `bytes` announces.
pub fn decode_header(format: FrameFormat, bytes: &[u8]) -> (r: u64)
    requires
        bytes@.len() >= format.header_len(),
    ensures
        r as nat == format.header_value(bytes@),
{
    match format {
        FrameFormat::U32BigEndian => {
            let v: u32 = ((bytes[0] as u32) << 24u32) | ((bytes[1] as u32) << 16u32) | ((
            bytes[2] as u32) << 8u32) | (bytes[3] as u32);
            v as u64
        },
        FrameFormat::U64LittleEndian => {
            (bytes[0] as u64) | ((bytes[1] as u64) << 8u64) | ((bytes[2] as u64) << 16u64) | ((
            bytes[3] as u64) << 24u64) | ((bytes[4] as u64) << 32u64) | ((bytes[5] as u64)
                << 40u64) | ((bytes[6] as u64) << 48u64) | ((bytes[7] as u64) << 56u64)
        },
    }
}

/// Decodes the frame at the start of `bytes` for a receiver that accepts
/// payloads of at most `max_packet_length` bytes.
pub fn decode_frame(format: FrameFormat, bytes: &[u8], max_packet_length: usize) -> (r:
    FrameStatus)
    ensures
        r.spec_parse() == parse_frame(format, bytes@, max_packet_length as nat),
        r matches FrameStatus::Refused(FrameError::TooLarge { max, .. }) ==> max
            == max_packet_length,
        r matches FrameStatus::Refused(FrameError::TooLarge { length, .. }) ==> {
            &&& bytes@.len() >= format.header_len()
            &&& length == format.header_value(bytes@)
            &&& length > max_packet_length
        },
        bytes@.len() < format.header_len() ==> r is Incomplete,
        bytes@.len() >= format.header_len() && format.header_value(bytes@) <= max_packet_length
            && bytes@.len() < format.header_len() + format.header_value(bytes@) ==> r is Incomplete,
        r matches FrameStatus::Complete { payload, consumed } ==> {
            &&& consumed == format.header_len() + format.header_value(bytes@)
            &&& consumed <= bytes@.len()
            &&& format.header_value(bytes@) <= max_packet_length
            &&& payload@ == bytes@.subrange(format.header_len() as int, consumed as int)
        },
{
    let h = format.header_size();
    if bytes.len() < h {
        return FrameStatus::Incomplete;
    }
    let n = decode_header(format, bytes);
    if n > max_packet_length as u64 {
        return FrameStatus::Refused(FrameError::TooLarge { length: n, max: max_packet_length });
    }
    let n = n as usize;
    if bytes.len() - h < n {
        return FrameStatus::Incomplete;
    }
    let payload = copy_range(bytes, h, h + n);
    FrameStatus::Complete { payload, consumed: h + n }
}

/// What a [`FrameReader`] makes of one piece it is handed.
pub enum ReaderStep {
    /// A header announcing a body of this many bytes, within the limit.
    AwaitBody(nat),
    /// A body: the payload.
    Payload(Seq<u8>),
    /// A header announcing this many bytes, more than the limit.
    Refused(nat),
}

/// The step of a reader with limit `max`: a header piece when one is awaited,
/// otherwise a body piece.
pub open spec fn reader_step(
    format: FrameFormat,
    max: nat,
    awaiting_header: bool,
    piece: Seq<u8>,
) -> ReaderStep {
    if awaiting_header {
        let n = format.header_value(piece);
        if n > max {
            ReaderStep::Refused(n)
        } else {
            ReaderStep::AwaitBody(n)
        }
    } else {
        ReaderStep::Payload(piece)
    }
}

/// The payloads that a reader with limit `max` gives back when it is handed,
/// one after the other, the pieces of `stream` that it asks for: a header,
/// then the body that the header announces, and so on, until the stream runs
/// out or a header is refused.
pub open spec fn reader_run(format: FrameFormat, max: nat, stream: Seq<u8>) -> Seq<Seq<u8>>
    decreases stream.len(),
{
    let h = format.header_len();
    if stream.len() < h {
        seq![]
    } else {
        match reader_step(format, max, true, stream.take(h as int)) {
            ReaderStep::AwaitBody(n) => {
                if stream.len() < h + n {
                    seq![]
                } else {
                    match reader_step(
                        format,
                        max,
                        false,
                        stream.subrange(h as int, (h + n) as int),
                    ) {
                        ReaderStep::Payload(p) => {
                            if h > 0 {
                                seq![p] + reader_run(format, max, stream.skip((h + n) as int))
                            } else {
                                seq![]
                            }
                        },
                        _ => seq![],
                    }
                }
            },
            _ => seq![],
        }
    }
}

/// The receiving side of a framed stream, read one exact piece at a time: first
/// a header, then the body that the header announces.
///
/// The caller reads exactly [`FrameReader::next_read_len`] bytes from the
/// stream and hands them to [`FrameReader::feed`], until `feed` yields a payload
/// or refuses the stream.
pub struct FrameReader {
    format: FrameFormat,
    max_packet_length: usize,
    body_len: Option<usize>,
}

impl FrameReader {
    /// The header layout that this reader expects.
    pub closed spec fn format(&self) -> FrameFormat {
        self.format
    }

    /// The largest payload that this reader accepts.
    pub closed spec fn max_packet_length(&self) -> usize {
        self.max_packet_length
    }

    /// `None` while a header is awaited; `Some(n)` while a body of `n` bytes is.
    pub closed spec fn awaiting_body(&self) -> Option<usize> {
        self.body_len
    }

    /// A reader that awaits its first header.
    pub fn new(format: FrameFormat, max_packet_length: usize) -> (r: FrameReader)
        ensures
            r.format() == format,
            r.max_packet_length() == max_packet_length,
            r.awaiting_body() is None,
    {
        FrameReader { format, max_packet_length, body_len: None }
    }

    /// The number of bytes to read next.
    pub fn next_read_len(&self) -> (r: usize)
        ensures
            r == match self.awaiting_body() {
                None => self.format().header_len(),
                Some(n) => n as nat,
            },
    {
        match self.body_len {
            None => self.format.header_size(),
            Some(n) => n,
        }
    }

    /// Takes the bytes just read. A header makes the reader await its body, or
    /// refuses the stream when it announces more than the limit; a body comes
    /// back as the payload, and the reader awaits the next header.
    pub fn feed(&mut self, bytes: &[u8]) -> (r: Result<Option<Vec<u8>>, FrameError>)
        requires
            bytes@.len() == match old(self).awaiting_body() {
                None => old(self).format().header_len(),
                Some(n) => n as nat,
            },
        ensures
            final(self).format() == old(self).format(),
            final(self).max_packet_length() == old(self).max_packet_length(),
            match reader_step(
                old(self).format(),
                old(self).max_packet_length() as nat,
                old(self).awaiting_body() is None,
                bytes@,
            ) {
                ReaderStep::Refused(n) => r == Err::<Option<Vec<u8>>, FrameError>(
                    FrameError::TooLarge { length: n as u64, max: old(self).max_packet_length() },
                ),
                ReaderStep::AwaitBody(n) => r matches Ok(None) && final(self).awaiting_body()
                    == Some(n as usize),
                ReaderStep::Payload(p) => r matches Ok(Some(payload)) && payload@ == p
                    && final(self).awaiting_body() is None,
            },
            match old(self).awaiting_body() {
                None => {
                    let n = old(self).format().header_value(bytes@);
                    if n > old(self).max_packet_length() {
                        &&& r == Err::<Option<Vec<u8>>, FrameError>(
                            FrameError::TooLarge {
                                length: n as u64,
                                max: old(self).max_packet_length(),
                            },
                        )
                        &&& final(self).awaiting_body() == old(self).awaiting_body()
                    } else {
                        &&& r matches Ok(None)
                        &&& final(self).awaiting_body() == Some(n as usize)
                    }
                },
                Some(_) => {
                    &&& r matches Ok(Some(payload)) && payload@ == bytes@
                    &&& final(self).awaiting_body() is None
                },
            },
    {
        match self.body_len {
            None => {
                let n = decode_header(self.format, bytes);
                if n > self.max_packet_length as u64 {
                    Err(FrameError::TooLarge { length: n, max: self.max_packet_length })
                } else {
                    self.body_len = Some(n as usize);
                    Ok(None)
                }
            },
            Some(_) => {
                self.body_len = None;
                Ok(Some(copy_range(bytes, 0, bytes.len())))
            },
        }
    }
}

/// The pieces that a [`FrameReader`] is handed for a framed payload: the
/// header announces the payload's length (which the reader accepts, as it is
/// within the limit), and what follows the header is the payload itself, which
/// [`FrameReader::feed`] then gives back.
pub proof fn lemma_reader_roundtrip(format: FrameFormat, payload: Seq<u8>, max: nat)
    requires
        fits(format, payload, max),
    ensures
        format.header_value(format.header_bytes(payload.len())) == payload.len(),
        format.header_bytes(payload.len()).len() == format.header_len(),
        format.frame_bytes(payload).skip(format.header_len() as int) == payload,
{
    lemma_header_roundtrip(format, payload.len(), seq![]);
    assert(format.header_bytes(payload.len()) + seq![] =~= format.header_bytes(payload.len()));
    assert(format.frame_bytes(payload).skip(format.header_len() as int) =~= payload);
}

/// A [`FrameReader`] walks a stream exactly as [`parse_frames`] does: fed the
/// first header's bytes it decides on the same announced length as
/// [`parse_frame`], and fed the body that follows it gives back the same
/// payload and has consumed the same number of bytes; the rest of the stream
/// is then read from the same position. [`law_reader_stream`] draws the
/// conclusion for a whole stream of frames.
pub proof fn law_reader_follows_parse(format: FrameFormat, stream: Seq<u8>, max: nat)
    requires
        stream.len() >= format.header_len(),
    ensures
        format.header_value(stream.take(format.header_len() as int)) == format.header_value(
            stream,
        ),
        format.header_value(stream) > max ==> parse_frame(format, stream, max)
            == FrameParse::TooLarge(format.header_value(stream)),
        ({
            let h = format.header_len();
            let n = format.header_value(stream);
            n <= max && stream.len() >= h + n ==> parse_frame(format, stream, max)
                == FrameParse::Complete(stream.subrange(h as int, (h + n) as int), h + n)
                && parse_frames(format, stream, max) == seq![stream.subrange(h as int, (h + n) as int)]
                + parse_frames(format, stream.skip((h + n) as int), max)
        }),
{
    let h = format.header_len();
    let t = stream.take(h as int);
    assert(t[0] == stream[0] && t[1] == stream[1] && t[2] == stream[2] && t[3] == stream[3]);
    if h == 8 {
        assert(t[4] == stream[4] && t[5] == stream[5] && t[6] == stream[6] && t[7] == stream[7]);
    }
}

/// Handing a reader the pieces of a stream walks it exactly as
/// [`parse_frames`] does.
pub proof fn lemma_reader_run_parses(format: FrameFormat, max: nat, stream: Seq<u8>)
    ensures
        reader_run(format, max, stream) == parse_frames(format, stream, max),
    decreases stream.len(),
{
    let h = format.header_len();
    if stream.len() >= h {
        law_reader_follows_parse(format, stream, max);
        let n = format.header_value(stream);
        if n <= max && stream.len() >= h + n {
            lemma_reader_run_parses(format, max, stream.skip((h + n) as int));
        }
    }
}

/// A reader handed, one after the other, the pieces of a stream of frames
/// that it asks for gives back the framed payloads, in the order in which
/// they were sent.
pub proof fn law_reader_stream(format: FrameFormat, payloads: Seq<Seq<u8>>, max: nat)
    requires
        forall|i: int| 0 <= i < payloads.len() ==> fits(format, #[trigger] payloads[i], max),
    ensures
        reader_run(format, max, frames_of(format, payloads)) == payloads,
{
    lemma_reader_run_parses(format, max, frames_of(format, payloads));
    lemma_stream_roundtrip(format, payloads, max);
}

} // verus!
