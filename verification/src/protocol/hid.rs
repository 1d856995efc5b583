//! HID fast lane: the sub-protocol on the envelope's HID channel.
//!
//! ```text
//!  0               1               2               3
//!  +---------------+---------------+---------------+---------------+
//!  | hid_op (u8)   | bind_id (u8)  | seq (u16 BE)                  |
//!  +---------------+---------------+---------------+---------------+
//!  | payload ...                                                   |
//!  +---------------------------------------------------------------+
//! ```
//!
//! `bind_id` names a (device, receiver) binding established by an earlier
//! `BindAck`. `seq` is a per-binding sender-side sequence number used to
//! detect drops.

use vstd::prelude::*;

use crate::bytes::{
    be16, be16_at, lemma_be16_canonical, lemma_be16_round_trip, push_bytes, push_u16, read_u16,
};
use crate::text::{dec, hex, pad_front, push_dec, push_hex, push_str};

verus! {

/// Size of the header in front of every HID frame.
pub const HID_HEADER_LEN: usize = 4;

/// What a HID frame is for.
#[derive(Copy, Clone, Debug, PartialEq, Eq, Structural)]
pub enum HidOp {
    /// Receiver asks the sender to bind a HID device for low-latency input.
    /// Payload: JSON `{ "busid": "...", "want": "input" }`.
    Bind,
    /// Sender acknowledges; the body carries the device's metadata and its
    /// report descriptor.
    BindAck,
    /// Sender pushes a raw HID input report to the receiver.
    ReportIn,
    /// Receiver pushes a raw HID output report to the sender.
    ReportOut,
    /// Get or set a feature report. The sending side implies the direction.
    ReportFeature,
    /// Tear down a binding. Payload: JSON `{ "reason": "..." }`.
    Unbind,
}

impl HidOp {
    /// The op's byte on the wire.
    pub open spec fn code(self) -> u8 {
        match self {
            HidOp::Bind => 0x01,
            HidOp::BindAck => 0x02,
            HidOp::ReportIn => 0x10,
            HidOp::ReportOut => 0x11,
            HidOp::ReportFeature => 0x12,
            HidOp::Unbind => 0x20,
        }
    }

    /// The op whose wire byte is `v`, if there is one.
    pub open spec fn of_code(v: u8) -> Option<HidOp> {
        if v == 0x01 {
            Some(HidOp::Bind)
        } else if v == 0x02 {
            Some(HidOp::BindAck)
        } else if v == 0x10 {
            Some(HidOp::ReportIn)
        } else if v == 0x11 {
            Some(HidOp::ReportOut)
        } else if v == 0x12 {
            Some(HidOp::ReportFeature)
        } else if v == 0x20 {
            Some(HidOp::Unbind)
        } else {
            None
        }
    }

    /// The op's byte on the wire.
    pub fn as_u8(self) -> (v: u8)
        ensures
            v == self.code(),
    {
        match self {
            HidOp::Bind => 0x01,
            HidOp::BindAck => 0x02,
            HidOp::ReportIn => 0x10,
            HidOp::ReportOut => 0x11,
            HidOp::ReportFeature => 0x12,
            HidOp::Unbind => 0x20,
        }
    }

    /// The op of a wire byte.
    pub fn from_u8(v: u8) -> (r: Option<HidOp>)
        ensures
            r == HidOp::of_code(v),
    {
        match v {
            0x01 => Some(HidOp::Bind),
            0x02 => Some(HidOp::BindAck),
            0x10 => Some(HidOp::ReportIn),
            0x11 => Some(HidOp::ReportOut),
            0x12 => Some(HidOp::ReportFeature),
            0x20 => Some(HidOp::Unbind),
            _ => None,
        }
    }
}

/// Why bytes are not a HID frame.
#[derive(Debug, PartialEq, Eq)]
pub enum HidError {
    /// Fewer bytes than the structure needs.
    Short(usize),
    /// No op has this byte.
    UnknownOp(u8),
}

impl HidError {
    /// The human-readable text of the error.
    pub open spec fn text(self) -> Seq<char> {
        match self {
            HidError::Short(n) => "hid frame too short ("@ + dec(n as nat) + " < 4)"@,
            HidError::UnknownOp(op) => "unknown hid op: 0x"@ + pad_front(hex(op as nat), 2, '0'),
        }
    }

    /// The human-readable text of the error.
    pub fn message(&self) -> (s: String)
        ensures
            s@ == self.text(),
    {
        let mut s = String::new();
        match self {
            HidError::Short(n) => {
                push_str(&mut s, "hid frame too short (");
                push_dec(&mut s, *n as u64);
                push_str(&mut s, " < 4)");
            },
            HidError::UnknownOp(op) => {
                push_str(&mut s, "unknown hid op: 0x");
                push_hex(&mut s, *op as u64, 2);
            },
        }
        assert(s@ =~= self.text());
        s
    }
}

/// The bytes of a HID frame.
pub open spec fn hid_frame_bytes(op: HidOp, bind_id: u8, seq: u16, body: Seq<u8>) -> Seq<u8> {
    seq![op.code(), bind_id] + be16(seq) + body
}

/// The outcome of reading a HID frame: op, bind id, sequence number and body.
pub open spec fn hid_outcome(b: Seq<u8>) -> Result<(HidOp, u8, u16, Seq<u8>), HidError> {
    if b.len() < HID_HEADER_LEN {
        Err(HidError::Short(b.len() as usize))
    } else {
        match HidOp::of_code(b[0]) {
            None => Err(HidError::UnknownOp(b[0])),
            Some(op) => Ok((op, b[1], be16_at(b, 2), b.skip(4))),
        }
    }
}

/// One frame of the HID fast lane. The body is borrowed.
#[derive(Debug, PartialEq, Eq)]
pub struct HidFrame<'a> {
    pub op: HidOp,
    pub bind_id: u8,
    pub seq: u16,
    pub body: &'a [u8],
}

impl<'a> HidFrame<'a> {
    /// The bytes of the frame.
    pub open spec fn bytes(self) -> Seq<u8> {
        hid_frame_bytes(self.op, self.bind_id, self.seq, self.body@)
    }

    /// A frame with these parts.
    pub fn new(op: HidOp, bind_id: u8, seq: u16, body: &'a [u8]) -> (f: HidFrame<'a>)
        ensures
            f.op == op,
            f.bind_id == bind_id,
            f.seq == seq,
            f.body@ == body@,
    {
        HidFrame { op, bind_id, seq, body }
    }

    /// Appends the frame to `out`.
    pub fn encode_into(&self, out: &mut Vec<u8>)
        ensures
            final(out)@ == old(out)@ + self.bytes(),
    {
        out.push(self.op.as_u8());
        out.push(self.bind_id);
        push_u16(out, self.seq);
        push_bytes(out, self.body);
        assert(out@ =~= old(out)@ + self.bytes());
    }

    /// Encodes to a fresh `Vec`.
    pub fn encode(&self) -> (v: Vec<u8>)
        ensures
            v@ == self.bytes(),
    {
        let mut v: Vec<u8> = Vec::new();
        self.encode_into(&mut v);
        assert(v@ =~= self.bytes());
        v
    }

    /// Reads a frame; everything behind the header is its body.
    pub fn parse(payload: &'a [u8]) -> (r: Result<HidFrame<'a>, HidError>)
        ensures
            match r {
                Ok(f) => hid_outcome(payload@) == Ok::<(HidOp, u8, u16, Seq<u8>), HidError>(
                    (f.op, f.bind_id, f.seq, f.body@),
                ),
                Err(e) => hid_outcome(payload@) == Err::<(HidOp, u8, u16, Seq<u8>), HidError>(e),
            },
            payload@.len() < 4 <==> r matches Err(HidError::Short(_)),
            r matches Err(HidError::Short(n)) ==> n == payload@.len(),
            r matches Err(HidError::UnknownOp(v)) ==> v == payload@[0],
            r is Ok <==> payload@.len() >= 4 && (payload@[0] == 0x01 || payload@[0] == 0x02 || 0x10
                <= payload@[0] <= 0x12 || payload@[0] == 0x20),
            r matches Ok(f) ==> f.op.code() == payload@[0] && f.bind_id == payload@[1] && f.seq
                == payload@[2] * 0x100 + payload@[3] && f.body@ == payload@.skip(4),
    {
        if payload.len() < HID_HEADER_LEN {
            return Err(HidError::Short(payload.len()));
        }
        let op = match HidOp::from_u8(payload[0]) {
            Some(op) => op,
            None => return Err(HidError::UnknownOp(payload[0])),
        };
        let seq: u16 = read_u16(payload, 2);
        let body = vstd::slice::slice_subrange(payload, HID_HEADER_LEN, payload.len());
        assert(body@ =~= payload@.skip(4));
        Ok(HidFrame { op, bind_id: payload[1], seq, body })
    }
}

/// Every op byte names the op that wrote it, and no other does.
pub proof fn lemma_hid_op_round_trip(op: HidOp, v: u8)
    ensures
        HidOp::of_code(op.code()) == Some(op),
        HidOp::of_code(v) is Some ==> HidOp::of_code(v)->Some_0.code() == v,
{
}

/// A HID frame reads back as what it was made of.
pub proof fn lemma_hid_frame_round_trip(op: HidOp, bind_id: u8, seq: u16, body: Seq<u8>)
    ensures
        hid_outcome(hid_frame_bytes(op, bind_id, seq, body)) == Ok::<
            (HidOp, u8, u16, Seq<u8>),
            HidError,
        >((op, bind_id, seq, body)),
{
    let b = hid_frame_bytes(op, bind_id, seq, body);
    lemma_be16_round_trip(seq);
    assert(be16_at(b, 2) == be16_at(be16(seq), 0));
    assert(b.skip(4) =~= body);
}

/// Bytes that read as a frame are exactly the encoding of that frame.
pub proof fn lemma_hid_frame_canonical(b: Seq<u8>)
    requires
        hid_outcome(b) is Ok,
    ensures
        hid_outcome(b) matches Ok((op, bind_id, seq, body)) && hid_frame_bytes(
            op,
            bind_id,
            seq,
            body,
        ) == b,
{
    if let Ok((op, bind_id, seq, body)) = hid_outcome(b) {
        lemma_be16_canonical(b, 2);
        assert(hid_frame_bytes(op, bind_id, seq, body) =~= b);
    }
}

/// What kind of input device the sender says it has bound.
#[derive(Copy, Clone, Debug, PartialEq, Eq, Structural)]
pub enum DeviceKind {
    Mouse,
    Keyboard,
    Gamepad,
    Other,
}

/// The receiver's request to bind a device: JSON in the body of a `Bind` frame.
#[derive(Debug, Clone, PartialEq, Eq)]
pub struct BindRequest {
    pub busid: String,
    pub want: String,
}

/// What the sender tells of the device it has bound: JSON at the front of the
/// body of a `BindAck` frame.
#[derive(Debug, Clone, PartialEq, Eq)]
pub struct BindAckMeta {
    pub busid: String,
    pub kind: DeviceKind,
    pub vendor_id: u16,
    pub product_id: u16,
    pub name: String,
}

/// The body of a `BindAck` frame: the length of the metadata (u16 BE), the
/// metadata as JSON text, then the raw report descriptor.
pub open spec fn bind_ack_body(meta: Seq<u8>, descriptor: Seq<u8>) -> Seq<u8> {
    be16(meta.len() as u16) + meta + descriptor
}

/// Builds the body of a `BindAck` frame.
pub fn encode_bind_ack_body(meta: &[u8], descriptor: &[u8]) -> (v: Vec<u8>)
    requires
        meta@.len() <= 0xFFFF,
    ensures
        v@ == bind_ack_body(meta@, descriptor@),
{
    let mut v: Vec<u8> = Vec::new();
    push_u16(&mut v, meta.len() as u16);
    push_bytes(&mut v, meta);
    push_bytes(&mut v, descriptor);
    assert(v@ =~= bind_ack_body(meta@, descriptor@));
    v
}

/// Splits the body of a `BindAck` frame into metadata and report descriptor.
/// A body that ends before its metadata does is `Short`.
pub fn parse_bind_ack_body(body: &[u8]) -> (r: Result<(&[u8], &[u8]), HidError>)
    ensures
        match r {
            Ok((meta, descriptor)) => body@.len() >= 2 && body@.len() >= 2 + be16_at(body@, 0)
                && meta@ == body@.subrange(2, 2 + be16_at(body@, 0)) && descriptor@ == body@.skip(
                2 + be16_at(body@, 0),
            ),
            Err(e) => (body@.len() < 2 || body@.len() < 2 + be16_at(body@, 0)) && e
                == HidError::Short(body@.len() as usize),
        },
{
    if body.len() < 2 {
        return Err(HidError::Short(body.len()));
    }
    let end: usize = 2 + read_u16(body, 0) as usize;
    if body.len() < end {
        return Err(HidError::Short(body.len()));
    }
    let meta = vstd::slice::slice_subrange(body, 2, end);
    let descriptor = vstd::slice::slice_subrange(body, end, body.len());
    assert(descriptor@ =~= body@.skip(end as int));
    Ok((meta, descriptor))
}

/// A `BindAck` body splits back into the metadata and the descriptor it was
/// built from.
pub proof fn lemma_bind_ack_body_round_trip(meta: Seq<u8>, descriptor: Seq<u8>)
    requires
        meta.len() <= 0xFFFF,
    ensures
        ({
            let b = bind_ack_body(meta, descriptor);
            &&& b.len() >= 2 + be16_at(b, 0)
            &&& be16_at(b, 0) == meta.len()
            &&& b.subrange(2, 2 + be16_at(b, 0)) == meta
            &&& b.skip(2 + be16_at(b, 0)) == descriptor
        }),
{
    let b = bind_ack_body(meta, descriptor);
    lemma_be16_round_trip(meta.len() as u16);
    assert(be16_at(b, 0) == be16_at(be16(meta.len() as u16), 0));
    assert(b.subrange(2, 2 + be16_at(b, 0)) =~= meta);
    assert(b.skip(2 + be16_at(b, 0)) =~= descriptor);
}

/// The layout of a HID frame: the op's byte, the binding's id, the sequence
/// number with its high byte first, then the body as it is.
pub proof fn lemma_hid_frame_layout(op: HidOp, bind_id: u8, seq: u16, body: Seq<u8>)
    ensures
        hid_frame_bytes(op, bind_id, seq, body).len() == 4 + body.len(),
        op == HidOp::Bind <==> hid_frame_bytes(op, bind_id, seq, body)[0] == 0x01,
        op == HidOp::BindAck <==> hid_frame_bytes(op, bind_id, seq, body)[0] == 0x02,
        op == HidOp::ReportIn <==> hid_frame_bytes(op, bind_id, seq, body)[0] == 0x10,
        op == HidOp::ReportOut <==> hid_frame_bytes(op, bind_id, seq, body)[0] == 0x11,
        op == HidOp::ReportFeature <==> hid_frame_bytes(op, bind_id, seq, body)[0] == 0x12,
        op == HidOp::Unbind <==> hid_frame_bytes(op, bind_id, seq, body)[0] == 0x20,
        hid_frame_bytes(op, bind_id, seq, body)[1] == bind_id,
        hid_frame_bytes(op, bind_id, seq, body)[2] * 0x100 + hid_frame_bytes(
            op,
            bind_id,
            seq,
            body,
        )[3] == seq,
        forall|i: int|
            0 <= i < body.len() ==> #[trigger] hid_frame_bytes(op, bind_id, seq, body)[4 + i]
                == body[i],
{
}

/// The layout of a `BindAck` body: the length of the metadata with its high byte
/// first, the metadata, then the report descriptor.
pub proof fn lemma_bind_ack_body_layout(meta: Seq<u8>, descriptor: Seq<u8>)
    requires
        meta.len() <= 0xFFFF,
    ensures
        bind_ack_body(meta, descriptor).len() == 2 + meta.len() + descriptor.len(),
        bind_ack_body(meta, descriptor)[0] * 0x100 + bind_ack_body(meta, descriptor)[1]
            == meta.len(),
        forall|i: int|
            0 <= i < meta.len() ==> #[trigger] bind_ack_body(meta, descriptor)[2 + i] == meta[i],
        forall|i: int|
            0 <= i < descriptor.len() ==> #[trigger] bind_ack_body(meta, descriptor)[2 + meta.len()
                + i] == descriptor[i],
{
}

} // verus!
