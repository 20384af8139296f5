//! Binary terminal frames: an opcode, a slot, and a payload.
use crate::bytes;
use crate::paseo_client::error::PaseoError;
use crate::text;
use vstd::prelude::*;

verus! {

pub const OP_OUTPUT: u8 = 0x01;

pub const OP_INPUT: u8 = 0x02;

pub const OP_RESIZE: u8 = 0x03;

pub const OP_SNAPSHOT: u8 = 0x04;

pub const OP_RESTORE: u8 = 0x05;

/// What a terminal frame carries.
#[derive(Clone, Copy, PartialEq, Eq, Debug, Structural)]
pub enum Opcode {
    Output,
    Input,
    Resize,
    Snapshot,
    Restore,
}

/// The byte of an opcode.
pub open spec fn opcode_byte(opcode: Opcode) -> u8 {
    match opcode {
        Opcode::Output => OP_OUTPUT,
        Opcode::Input => OP_INPUT,
        Opcode::Resize => OP_RESIZE,
        Opcode::Snapshot => OP_SNAPSHOT,
        Opcode::Restore => OP_RESTORE,
    }
}

/// The opcode that a byte stands for.
pub open spec fn opcode_of(value: u8) -> Option<Opcode> {
    if value == OP_OUTPUT {
        Some(Opcode::Output)
    } else if value == OP_INPUT {
        Some(Opcode::Input)
    } else if value == OP_RESIZE {
        Some(Opcode::Resize)
    } else if value == OP_SNAPSHOT {
        Some(Opcode::Snapshot)
    } else if value == OP_RESTORE {
        Some(Opcode::Restore)
    } else {
        None
    }
}

/// A byte stands for an opcode just where it is that opcode's byte.
pub proof fn opcode_bytes_are_unique(value: u8, opcode: Opcode)
    ensures
        opcode_of(value) == Some(opcode) <==> value == opcode_byte(opcode),
{
}

impl Opcode {
    /// The opcode that a byte stands for.
    pub fn from_u8(value: u8) -> (r: Option<Opcode>)
        ensures
            r == opcode_of(value),
    {
        if value == OP_OUTPUT {
            Some(Opcode::Output)
        } else if value == OP_INPUT {
            Some(Opcode::Input)
        } else if value == OP_RESIZE {
            Some(Opcode::Resize)
        } else if value == OP_SNAPSHOT {
            Some(Opcode::Snapshot)
        } else if value == OP_RESTORE {
            Some(Opcode::Restore)
        } else {
            None
        }
    }

    /// The byte of the opcode.
    pub fn to_u8(self) -> (r: u8)
        ensures
            r == opcode_byte(self),
    {
        match self {
            Opcode::Output => OP_OUTPUT,
            Opcode::Input => OP_INPUT,
            Opcode::Resize => OP_RESIZE,
            Opcode::Snapshot => OP_SNAPSHOT,
            Opcode::Restore => OP_RESTORE,
        }
    }
}

/// A frame of a terminal; the slot says of which.
#[derive(Clone, PartialEq, Eq, Debug)]
pub struct Frame {
    pub opcode: Opcode,
    pub slot: u8,
    pub payload: Vec<u8>,
}

/// What a [`Frame`] says.
#[verifier::ext_equal]
pub struct FrameModel {
    pub opcode: Opcode,
    pub slot: u8,
    pub payload: Seq<u8>,
}

impl View for Frame {
    type V = FrameModel;

    open spec fn view(&self) -> FrameModel {
        FrameModel { opcode: self.opcode, slot: self.slot, payload: self.payload@ }
    }
}

/// Whether the bytes begin as a terminal frame does.
pub open spec fn begins_frame(bytes: Seq<u8>) -> bool {
    bytes.len() > 0 && opcode_of(bytes[0]) is Some
}

/// Whether the bytes begin with an opcode.
pub fn is_terminal_frame(bytes: &[u8]) -> (r: bool)
    ensures
        r == begins_frame(bytes@),
{
    bytes.len() > 0 && Opcode::from_u8(bytes[0]).is_some()
}

/// The bytes of a frame.
pub open spec fn encoded(frame: FrameModel) -> Seq<u8> {
    seq![opcode_byte(frame.opcode), frame.slot] + frame.payload
}

/// The frame that the bytes are.
pub open spec fn decoded(bytes: Seq<u8>) -> Option<FrameModel> {
    if bytes.len() < 2 {
        None
    } else {
        match opcode_of(bytes[0]) {
            None => None,
            Some(opcode) => Some(FrameModel { opcode, slot: bytes[1], payload: bytes.skip(2) }),
        }
    }
}

/// The bytes of a frame.
pub fn encode(opcode: Opcode, slot: u8, payload: &[u8]) -> (r: Vec<u8>)
    ensures
        r@ == encoded(FrameModel { opcode, slot, payload: payload@ }),
{
    let mut out: Vec<u8> = Vec::new();
    out.push(opcode.to_u8());
    out.push(slot);
    assert(out@ == seq![opcode_byte(opcode), slot]);
    bytes::push_all(&mut out, payload);
    out
}

/// The frame that the bytes are, where there are at least two and the first is an opcode.
pub fn decode(bytes: &[u8]) -> (r: Option<Frame>)
    ensures
        match decoded(bytes@) {
            Some(frame) => r matches Some(f) && f@ == frame,
            None => r is None,
        },
{
    if bytes.len() < 2 {
        return None;
    }
    match Opcode::from_u8(bytes[0]) {
        None => None,
        Some(opcode) => {
            let payload = bytes::copy_range(bytes, 2, bytes.len());
            assert(payload@ == bytes@.skip(2));
            Some(Frame { opcode, slot: bytes[1], payload })
        },
    }
}

/// A frame is read back as it was written.
pub proof fn frames_read_back(frame: FrameModel)
    ensures
        decoded(encoded(frame)) == Some(frame),
        begins_frame(encoded(frame)),
{
    assert(encoded(frame).skip(2) == frame.payload);
}

/// What is read as a frame is written back as the same bytes.
pub proof fn frames_write_back(bytes: Seq<u8>)
    ensures
        decoded(bytes) matches Some(frame) ==> encoded(frame) == bytes,
{
    if let Some(frame) = decoded(bytes) {
        assert(encoded(frame) == bytes);
    }
}

/// The size of a terminal.
#[derive(Clone, Copy, Debug)]
pub struct ResizePayload {
    pub rows: u32,
    pub cols: u32,
}

/// The frame that carries keyboard input to a terminal.
pub fn encode_input(slot: u8, data: &[u8]) -> (r: Vec<u8>)
    ensures
        r@ == encoded(FrameModel { opcode: Opcode::Input, slot, payload: data@ }),
{
    encode(Opcode::Input, slot, data)
}

/// A terminal size in JSON.
pub open spec fn resize_json(rows: u32, cols: u32) -> Seq<char> {
    "{\"rows\":"@ + text::decimal(rows as nat) + ",\"cols\":"@ + text::decimal(cols as nat) + "}"@
}

/// The frame that tells the daemon a terminal's size; it never fails.
pub fn encode_resize(slot: u8, rows: u32, cols: u32) -> (r: Result<Vec<u8>, PaseoError>)
    ensures
        r matches Ok(v) && v@ == encoded(
            FrameModel {
                opcode: Opcode::Resize,
                slot,
                payload: vstd::utf8::encode_utf8(resize_json(rows, cols)),
            },
        ),
{
    let mut json = "{\"rows\":".to_owned();
    text::push_decimal(&mut json, rows as u64);
    json.push_str(",\"cols\":");
    text::push_decimal(&mut json, cols as u64);
    json.push_str("}");
    let payload = json.as_str().as_bytes();
    Ok(encode(Opcode::Resize, slot, payload))
}

/// A frame begins with one byte for what it carries, from 1 to 5, and one for the slot. All that
/// follows is the payload. Bytes that begin otherwise, or that are fewer than two, are no frame.
pub proof fn frames_are_laid_out(frame: FrameModel, bytes: Seq<u8>)
    ensures
        encoded(frame).len() == frame.payload.len() + 2,
        encoded(frame)[0] == (match frame.opcode {
            Opcode::Output => 1u8,
            Opcode::Input => 2u8,
            Opcode::Resize => 3u8,
            Opcode::Snapshot => 4u8,
            Opcode::Restore => 5u8,
        }),
        encoded(frame)[1] == frame.slot,
        forall|i: int|
            0 <= i < frame.payload.len() ==> encoded(frame)[i + 2] == #[trigger] frame.payload[i],
        decoded(bytes) is Some <==> bytes.len() >= 2 && 1 <= bytes[0] <= 5,
        begins_frame(bytes) <==> bytes.len() >= 1 && 1 <= bytes[0] <= 5,
{
}

} // verus!
