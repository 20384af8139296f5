//! Frames on the relay connection: a kind, two sequence numbers, and a length-prefixed payload.
use crate::bytes;
use crate::text;
use std::collections::VecDeque;
use vstd::prelude::*;

verus! {

pub const HEADER_LEN: usize = 13;

pub const MAX_MESSAGE_SIZE: usize = 16 * 1024 * 1024;

/// What a frame is for.
#[derive(Debug, Clone, Copy, PartialEq, Eq, Structural)]
pub enum FrameType {
    Regular,
    Handshake,
    KeepAlive,
}

/// The byte that stands for a kind of frame.
pub open spec fn type_byte(kind: FrameType) -> u8 {
    match kind {
        FrameType::Regular => 1,
        FrameType::Handshake => 2,
        FrameType::KeepAlive => 9,
    }
}

/// The kind of frame that a byte stands for.
pub open spec fn type_of(byte: u8) -> Option<FrameType> {
    if byte == 1 {
        Some(FrameType::Regular)
    } else if byte == 2 {
        Some(FrameType::Handshake)
    } else if byte == 9 {
        Some(FrameType::KeepAlive)
    } else {
        None
    }
}

/// A byte stands for a kind of frame just where it is that kind's byte.
pub proof fn type_bytes_are_unique(byte: u8, kind: FrameType)
    ensures
        type_of(byte) == Some(kind) <==> byte == type_byte(kind),
{
}

impl FrameType {
    fn to_byte(self) -> (r: u8)
        ensures
            r == type_byte(self),
    {
        match self {
            FrameType::Regular => 1,
            FrameType::Handshake => 2,
            FrameType::KeepAlive => 9,
        }
    }

    fn from_byte(byte: u8) -> (r: Option<FrameType>)
        ensures
            r == type_of(byte),
    {
        match byte {
            1 => Some(FrameType::Regular),
            2 => Some(FrameType::Handshake),
            9 => Some(FrameType::KeepAlive),
            _ => None,
        }
    }
}

/// One frame.
#[derive(Debug, Clone)]
pub struct Frame {
    pub kind: FrameType,
    pub id: u32,
    pub ack: u32,
    pub payload: Vec<u8>,
}

/// What a [`Frame`] says.
#[verifier::ext_equal]
pub struct FrameModel {
    pub kind: FrameType,
    pub id: u32,
    pub ack: u32,
    pub payload: Seq<u8>,
}

impl View for Frame {
    type V = FrameModel;

    open spec fn view(&self) -> FrameModel {
        FrameModel { kind: self.kind, id: self.id, ack: self.ack, payload: self.payload@ }
    }
}

/// The bytes of a frame: the kind, the two numbers and the length of the payload in four bytes each,
/// then the payload. A length beyond four bytes is cut to its low 32 bits.
pub open spec fn encoded(frame: FrameModel) -> Seq<u8> {
    seq![type_byte(frame.kind)] + bytes::be_bytes(frame.id) + bytes::be_bytes(frame.ack)
        + bytes::be_bytes((frame.payload.len() % 0x1_0000_0000) as u32) + frame.payload
}

impl Frame {
    /// A frame of the given parts.
    pub fn new(kind: FrameType, id: u32, ack: u32, payload: Vec<u8>) -> (r: Frame)
        ensures
            r@ == (FrameModel { kind, id, ack, payload: payload@ }),
    {
        Frame { kind, id, ack, payload }
    }

    /// The bytes of the frame.
    pub fn encode(&self) -> (r: Vec<u8>)
        ensures
            r@ == encoded(self@),
    {
        let mut buffer: Vec<u8> = Vec::new();
        buffer.push(self.kind.to_byte());
        assert(buffer@ == seq![type_byte(self.kind)]);
        bytes::push_be(&mut buffer, self.id);
        bytes::push_be(&mut buffer, self.ack);
        let length: u32 = (self.payload.len() as u64 % 0x1_0000_0000) as u32;
        bytes::push_be(&mut buffer, length);
        bytes::push_all(&mut buffer, &self.payload);
        buffer
    }
}

/// Why a stream of frames cannot be read on.
#[derive(Debug, Clone, Copy, PartialEq, Eq, Structural)]
pub enum FrameError {
    UnknownType(u8),
    Oversized(usize),
}

impl FrameError {
    /// The error in words.
    pub fn message(&self) -> (r: String)
        ensures
            r@ == (match self {
                FrameError::UnknownType(byte) => "unknown relay frame type: "@ + text::decimal(
                    *byte as nat,
                ),
                FrameError::Oversized(length) => "relay frame payload of "@ + text::decimal(
                    *length as nat,
                ) + " bytes exceeds the "@ + text::decimal(MAX_MESSAGE_SIZE as nat)
                    + "-byte limit"@,
            }),
    {
        match self {
            FrameError::UnknownType(byte) => {
                let mut out = "unknown relay frame type: ".to_owned();
                text::push_decimal(&mut out, *byte as u64);
                out
            },
            FrameError::Oversized(length) => {
                let mut out = "relay frame payload of ".to_owned();
                text::push_decimal(&mut out, *length as u64);
                out.push_str(" bytes exceeds the ");
                text::push_decimal(&mut out, MAX_MESSAGE_SIZE as u64);
                out.push_str("-byte limit");
                out
            },
        }
    }
}

/// What the bytes that arrived so far begin with.
#[verifier::ext_equal]
pub enum Decoded {
    /// Not yet a whole frame.
    Incomplete,
    /// Something that is no frame.
    Broken(FrameError),
    /// A frame; `rest` is what follows it.
    Whole { frame: FrameModel, rest: Seq<u8> },
}

/// The length of the payload that a header announces.
pub open spec fn announced_length(buffer: Seq<u8>) -> nat {
    bytes::be_value(buffer[9], buffer[10], buffer[11], buffer[12])
}

/// What the bytes begin with. A payload over the limit is refused before the kind is looked at, and
/// both as soon as the header is there.
pub open spec fn decoded(buffer: Seq<u8>) -> Decoded {
    if buffer.len() < HEADER_LEN {
        Decoded::Incomplete
    } else {
        let length = announced_length(buffer);
        if length > MAX_MESSAGE_SIZE {
            Decoded::Broken(FrameError::Oversized(length as usize))
        } else {
            match type_of(buffer[0]) {
                None => Decoded::Broken(FrameError::UnknownType(buffer[0])),
                Some(kind) => if buffer.len() < HEADER_LEN + length {
                    Decoded::Incomplete
                } else {
                    Decoded::Whole {
                        frame: FrameModel {
                            kind,
                            id: bytes::be_value(buffer[1], buffer[2], buffer[3], buffer[4]) as u32,
                            ack: bytes::be_value(buffer[5], buffer[6], buffer[7], buffer[8]) as u32,
                            payload: buffer.subrange(HEADER_LEN as int, HEADER_LEN + length),
                        },
                        rest: buffer.skip(HEADER_LEN + length),
                    }
                },
            }
        }
    }
}

/// Takes frames out of a stream of bytes that arrives in chunks of any size.
pub struct FrameDecoder {
    buffer: VecDeque<u8>,
}

impl View for FrameDecoder {
    type V = Seq<u8>;

    closed spec fn view(&self) -> Seq<u8> {
        self.buffer@
    }
}

impl Default for FrameDecoder {
    fn default() -> (r: FrameDecoder)
        ensures
            r@ == Seq::<u8>::empty(),
    {
        FrameDecoder { buffer: VecDeque::new() }
    }
}

impl FrameDecoder {
    /// A decoder that no byte has reached yet.
    pub fn new() -> (r: FrameDecoder)
        ensures
            r@ == Seq::<u8>::empty(),
    {
        FrameDecoder { buffer: VecDeque::new() }
    }

    /// Takes in the next bytes of the stream.
    pub fn feed(&mut self, chunk: &[u8])
        ensures
            final(self)@ == old(self)@ + chunk@,
    {
        let mut i: usize = 0;
        while i < chunk.len()
            invariant
                i <= chunk@.len(),
                self@ == old(self)@ + chunk@.take(i as int),
            decreases chunk@.len() - i,
        {
            self.buffer.push_back(chunk[i]);
            assert(chunk@.take(i + 1) == chunk@.take(i as int).push(chunk@[i as int]));
            i += 1;
        }
        assert(chunk@.take(i as int) == chunk@);
    }

    /// Takes the next frame out of what arrived, where it is there as a whole; otherwise nothing
    /// changes.
    pub fn next_frame(&mut self) -> (r: Result<Option<Frame>, FrameError>)
        ensures
            match decoded(old(self)@) {
                Decoded::Incomplete => (r matches Ok(None)) && final(self)@ == old(self)@,
                Decoded::Broken(e) => (r matches Err(x) && x == e) && final(self)@ == old(self)@,
                Decoded::Whole { frame, rest } => final(self)@ == rest && (r matches Ok(Some(f))
                    && f@ == frame),
            },
    {
        let ghost before = self@;
        let n: usize = self.buffer.len();
        if n < HEADER_LEN {
            return Ok(None);
        }
        let length: usize = bytes::from_be(
            self.buffer[9],
            self.buffer[10],
            self.buffer[11],
            self.buffer[12],
        ) as usize;
        if length > MAX_MESSAGE_SIZE {
            return Err(FrameError::Oversized(length));
        }
        let kind = match FrameType::from_byte(self.buffer[0]) {
            Some(kind) => kind,
            None => return Err(FrameError::UnknownType(self.buffer[0])),
        };
        if n < HEADER_LEN + length {
            return Ok(None);
        }
        let id: u32 = bytes::from_be(
            self.buffer[1],
            self.buffer[2],
            self.buffer[3],
            self.buffer[4],
        );
        let ack: u32 = bytes::from_be(
            self.buffer[5],
            self.buffer[6],
            self.buffer[7],
            self.buffer[8],
        );
        let mut i: usize = 0;
        assert(before.skip(0) == before);
        while i < HEADER_LEN
            invariant
                i <= HEADER_LEN,
                HEADER_LEN + length <= before.len(),
                self@ == before.skip(i as int),
            decreases HEADER_LEN - i,
        {
            let _ = self.buffer.pop_front();
            assert(before.skip(i as int).subrange(1, before.len() - i) == before.skip(i + 1));
            i += 1;
        }
        let mut payload: Vec<u8> = Vec::new();
        let mut k: usize = 0;
        while k < length
            invariant
                k <= length <= MAX_MESSAGE_SIZE,
                HEADER_LEN + length <= before.len(),
                self@ == before.skip(HEADER_LEN + k),
                payload@ == before.subrange(HEADER_LEN as int, HEADER_LEN + k),
            decreases length - k,
        {
            if let Some(byte) = self.buffer.pop_front() {
                payload.push(byte);
            }
            assert(before.skip(HEADER_LEN + k).subrange(1, before.len() - HEADER_LEN - k)
                == before.skip(HEADER_LEN + k + 1));
            assert(before.subrange(HEADER_LEN as int, HEADER_LEN + k + 1) == before.subrange(
                HEADER_LEN as int,
                HEADER_LEN + k,
            ).push(before[HEADER_LEN + k]));
            k += 1;
        }
        Ok(Some(Frame { kind, id, ack, payload }))
    }
}

/// Whether the four bytes of `n` stand in `buffer` from index `at` on.
spec fn holds_number(buffer: Seq<u8>, at: int, n: u32) -> bool {
    &&& buffer[at] == bytes::be_bytes(n)[0]
    &&& buffer[at + 1] == bytes::be_bytes(n)[1]
    &&& buffer[at + 2] == bytes::be_bytes(n)[2]
    &&& buffer[at + 3] == bytes::be_bytes(n)[3]
}

proof fn lemma_encoded_parts(frame: FrameModel)
    ensures
        encoded(frame).len() == HEADER_LEN + frame.payload.len(),
        encoded(frame)[0] == type_byte(frame.kind),
        holds_number(encoded(frame), 1, frame.id),
        holds_number(encoded(frame), 5, frame.ack),
        holds_number(encoded(frame), 9, (frame.payload.len() % 0x1_0000_0000) as u32),
        encoded(frame).skip(HEADER_LEN as int) == frame.payload,
{
}

proof fn lemma_number_reads_back(buffer: Seq<u8>, at: int, n: u32)
    requires
        holds_number(buffer, at, n),
    ensures
        bytes::be_value(buffer[at], buffer[at + 1], buffer[at + 2], buffer[at + 3]) == n,
{
    bytes::be_bytes_read_back(n);
}

proof fn lemma_number_is_kept(head: Seq<u8>, rest: Seq<u8>, at: int, n: u32)
    requires
        0 <= at,
        at + 4 <= head.len(),
        holds_number(head, at, n),
    ensures
        ({
            let buffer = head + rest;
            bytes::be_value(buffer[at], buffer[at + 1], buffer[at + 2], buffer[at + 3]) == n
        }),
{
    lemma_number_reads_back(head + rest, at, n);
}

proof fn lemma_header_reads_back(frame: FrameModel, rest: Seq<u8>)
    requires
        frame.payload.len() <= MAX_MESSAGE_SIZE,
    ensures
        ({
            let buffer = encoded(frame) + rest;
            &&& buffer.len() == HEADER_LEN + frame.payload.len() + rest.len()
            &&& buffer[0] == type_byte(frame.kind)
            &&& bytes::be_value(buffer[1], buffer[2], buffer[3], buffer[4]) == frame.id
            &&& bytes::be_value(buffer[5], buffer[6], buffer[7], buffer[8]) == frame.ack
            &&& announced_length(buffer) == frame.payload.len()
        }),
{
    let head = encoded(frame);
    let buffer = head + rest;
    lemma_encoded_parts(frame);
    lemma_number_is_kept(head, rest, 1, frame.id);
    lemma_number_is_kept(head, rest, 5, frame.ack);
    lemma_number_is_kept(head, rest, 9, frame.payload.len() as u32);
    assert(buffer[0] == head[0]);
}

/// A frame within the size limit is read back as it was written, and what was written after it is
/// left.
pub proof fn frames_read_back(frame: FrameModel, rest: Seq<u8>)
    requires
        frame.payload.len() <= MAX_MESSAGE_SIZE,
    ensures
        decoded(encoded(frame) + rest) == (Decoded::Whole { frame, rest }),
{
    let head = encoded(frame);
    let buffer = head + rest;
    lemma_encoded_parts(frame);
    lemma_header_reads_back(frame, rest);
    assert(buffer.subrange(HEADER_LEN as int, HEADER_LEN + frame.payload.len()) == head.skip(
        HEADER_LEN as int,
    ));
    assert(buffer.skip(HEADER_LEN + frame.payload.len()) == rest);
}

/// While only a part of a frame within the size limit has arrived, the decoder waits.
pub proof fn parts_of_frames_wait(frame: FrameModel, n: int)
    requires
        frame.payload.len() <= MAX_MESSAGE_SIZE,
        0 <= n < encoded(frame).len(),
    ensures
        decoded(encoded(frame).take(n)) == Decoded::Incomplete,
{
    let part = encoded(frame).take(n);
    lemma_encoded_parts(frame);
    if n >= HEADER_LEN {
        let whole = encoded(frame) + Seq::<u8>::empty();
        frames_read_back(frame, Seq::empty());
        assert(forall|i: int| 0 <= i < HEADER_LEN ==> part[i] == whole[i]);
        assert(announced_length(part) == announced_length(whole));
    }
}

/// What the decoder found in the bytes that arrived, later bytes do not change.
pub proof fn later_bytes_change_nothing(buffer: Seq<u8>, more: Seq<u8>)
    ensures
        decoded(buffer) matches Decoded::Broken(e) ==> decoded(buffer + more) == Decoded::Broken(e),
        decoded(buffer) matches Decoded::Whole { frame, rest } ==> decoded(buffer + more) == (
        Decoded::Whole { frame, rest: rest + more }),
{
    let longer = buffer + more;
    if buffer.len() >= HEADER_LEN {
        assert(forall|i: int| 0 <= i < HEADER_LEN ==> longer[i] == buffer[i]);
        let length = announced_length(buffer);
        if let Decoded::Whole { frame, rest } = decoded(buffer) {
            assert(longer.subrange(HEADER_LEN as int, HEADER_LEN + length) == frame.payload);
            assert(longer.skip(HEADER_LEN + length) == rest + more);
        }
    }
}

/// What is taken out of bytes frame by frame: the frames, what is then left, and why the bytes that are
/// left cannot be read on, where they cannot.
#[verifier::ext_equal]
pub struct Drained {
    pub frames: Seq<FrameModel>,
    pub rest: Seq<u8>,
    pub error: Option<FrameError>,
}

/// What is taken out of the bytes frame by frame, until no whole frame is left.
#[verifier::opaque]
pub open spec fn drained(buffer: Seq<u8>) -> Drained
    decreases buffer.len(),
{
    match decoded(buffer) {
        Decoded::Incomplete => Drained { frames: Seq::empty(), rest: buffer, error: None },
        Decoded::Broken(e) => Drained { frames: Seq::empty(), rest: buffer, error: Some(e) },
        Decoded::Whole { frame, rest } => {
            let more = drained(rest);
            Drained { frames: seq![frame] + more.frames, ..more }
        },
    }
}

proof fn lemma_nothing_to_drain(buffer: Seq<u8>)
    requires
        decoded(buffer) !is Whole,
    ensures
        drained(buffer) == (Drained {
            frames: Seq::empty(),
            rest: buffer,
            error: match decoded(buffer) {
                Decoded::Broken(e) => Some(e),
                _ => None,
            },
        }),
{
    reveal(drained);
}

proof fn lemma_one_drained(buffer: Seq<u8>, frame: FrameModel, rest: Seq<u8>)
    requires
        decoded(buffer) == (Decoded::Whole { frame, rest }),
    ensures
        drained(buffer) == (Drained {
            frames: seq![frame] + drained(rest).frames,
            ..drained(rest)
        }),
        rest.len() < buffer.len(),
{
    reveal(drained);
}

/// However a stream is cut, the same frames come out of it, and it breaks at the same place: what was
/// taken out of a first part `a` comes first, and the rest follows once `b` has arrived.
pub proof fn cuts_change_nothing(a: Seq<u8>, b: Seq<u8>)
    ensures
        ({
            let first = drained(a);
            let then = drained(first.rest + b);
            drained(a + b) == (if first.error is Some {
                Drained { rest: first.rest + b, ..first }
            } else {
                Drained { frames: first.frames + then.frames, ..then }
            })
        }),
    decreases a.len(),
{
    let first = drained(a);
    let then = drained(first.rest + b);
    later_bytes_change_nothing(a, b);
    match decoded(a) {
        Decoded::Incomplete => {
            lemma_nothing_to_drain(a);
            assert(first.frames + then.frames == then.frames);
        },
        Decoded::Broken(_) => {
            lemma_nothing_to_drain(a);
            lemma_nothing_to_drain(a + b);
        },
        Decoded::Whole { frame, rest } => {
            lemma_one_drained(a, frame, rest);
            lemma_one_drained(a + b, frame, rest + b);
            cuts_change_nothing(rest, b);
            let more = drained(rest);
            assert(seq![frame] + (more.frames + then.frames) == first.frames + then.frames);
        },
    }
}

/// The bytes of frames, one after the other.
pub open spec fn all_encoded(frames: Seq<FrameModel>) -> Seq<u8>
    decreases frames.len(),
{
    if frames.len() == 0 {
        Seq::empty()
    } else {
        encoded(frames[0]) + all_encoded(frames.skip(1))
    }
}

/// A stream of frames within the size limit is read back as these frames, and nothing is left.
pub proof fn streams_read_back(frames: Seq<FrameModel>)
    requires
        forall|i: int| 0 <= i < frames.len() ==> (#[trigger] frames[i]).payload.len()
            <= MAX_MESSAGE_SIZE,
    ensures
        drained(all_encoded(frames)) == (Drained { frames, rest: Seq::empty(), error: None }),
    decreases frames.len(),
{
    if frames.len() > 0 {
        let others = frames.skip(1);
        assert forall|i: int| 0 <= i < others.len() implies (#[trigger] others[i]).payload.len()
            <= MAX_MESSAGE_SIZE by {
            assert(others[i] == frames[i + 1]);
        }
        streams_read_back(others);
        frames_read_back(frames[0], all_encoded(others));
        lemma_one_drained(all_encoded(frames), frames[0], all_encoded(others));
        assert(seq![frames[0]] + others == frames);
    } else {
        lemma_nothing_to_drain(Seq::empty());
        assert(frames == Seq::<FrameModel>::empty());
    }
}

/// A frame begins with one byte for its kind, its number, the number that it acknowledges and the
/// length of its payload, each of these in four bytes with the greatest first. All that follows is the
/// payload.
pub proof fn frames_are_laid_out(frame: FrameModel)
    requires
        frame.payload.len() <= 0x100_0000,
    ensures
        ({
            let b = encoded(frame);
            let at = |i: int|
                b[i] as int * 0x100_0000 + b[i + 1] as int * 0x1_0000 + b[i + 2] as int * 0x100
                    + b[i + 3] as int;
            &&& b.len() == 13 + frame.payload.len()
            &&& b[0] == (match frame.kind {
                FrameType::Regular => 1u8,
                FrameType::Handshake => 2u8,
                FrameType::KeepAlive => 9u8,
            })
            &&& at(1) == frame.id
            &&& at(5) == frame.ack
            &&& at(9) == frame.payload.len()
            &&& b.skip(13) == frame.payload
        }),
{
    let empty = Seq::<u8>::empty();
    lemma_header_reads_back(frame, empty);
    assert(encoded(frame) + empty == encoded(frame));
    lemma_encoded_parts(frame);
}

/// A header is refused where it announces a payload above the limit, before anything else is looked at,
/// and else where its kind is unknown. A whole header is enough for that.
pub proof fn bad_headers_are_refused(buffer: Seq<u8>)
    requires
        buffer.len() >= 13,
    ensures
        ({
            let length = buffer[9] as int * 0x100_0000 + buffer[10] as int * 0x1_0000 + buffer[11] as int
                * 0x100 + buffer[12] as int;
            let known = buffer[0] == 1 || buffer[0] == 2 || buffer[0] == 9;
            &&& length > 0x100_0000 ==> decoded(buffer) == Decoded::Broken(
                FrameError::Oversized(length as usize),
            )
            &&& length <= 0x100_0000 && !known ==> decoded(buffer) == Decoded::Broken(
                FrameError::UnknownType(buffer[0]),
            )
            &&& length <= 0x100_0000 && known ==> (decoded(buffer) is Whole <==> buffer.len()
                >= 13 + length)
        }),
{
}

} // verus!
