//! USB/IP op codes, frames and per-URB headers (kernel.org format).
//!
//! See <https://docs.kernel.org/usb/usbip_protocol.html>.
//!
//! The on-wire bytes are relayed verbatim between the receiver's USB/IP stack
//! (vhci-hcd on Linux) and the sender's userspace USB/IP implementation. What
//! zerowire layers on top is
//!
//! * a 4-byte `import_id` prefix inside the envelope payload, so several
//!   devices can share one socket (`UsbipFrame`), and
//! * an optional 1-byte unlink reason trailer (`UnlinkReason`).

use vstd::prelude::*;

use crate::bytes::{
    be32, be32_at, lemma_be32_canonical, lemma_be32_round_trip, push_bytes, push_u32, read_u32,
    write_u32,
};
use crate::text::{clone_opt, dec, hex, opt_text, pad_front, push_dec, push_hex, push_str};

verus! {

/// USB/IP "op" codes: the framing of the high-level requests.
#[derive(Copy, Clone, Debug, PartialEq, Eq, Structural)]
pub enum Op {
    /// Receiver asks the server for its device list.
    OpReqDevlist,
    /// Server replies with its device list.
    OpRepDevlist,
    /// Receiver claims a device by busid.
    OpReqImport,
    /// Server confirms (or denies) the import.
    OpRepImport,
}

impl Op {
    /// The code on the wire.
    pub open spec fn code(self) -> u16 {
        match self {
            Op::OpReqDevlist => 0x8005,
            Op::OpRepDevlist => 0x0005,
            Op::OpReqImport => 0x8003,
            Op::OpRepImport => 0x0003,
        }
    }

    /// The value that `v` stands for, if any.
    pub open spec fn of_code(v: u16) -> Option<Op> {
        if v == 0x8005 {
            Some(Op::OpReqDevlist)
        } else if v == 0x0005 {
            Some(Op::OpRepDevlist)
        } else if v == 0x8003 {
            Some(Op::OpReqImport)
        } else if v == 0x0003 {
            Some(Op::OpRepImport)
        } else {
            None
        }
    }

    /// The code on the wire.
    pub fn as_u16(self) -> (v: u16)
        ensures
            v == self.code(),
    {
        match self {
            Op::OpReqDevlist => 0x8005,
            Op::OpRepDevlist => 0x0005,
            Op::OpReqImport => 0x8003,
            Op::OpRepImport => 0x0003,
        }
    }

    /// The value of a wire code.
    pub fn from_u16(v: u16) -> (r: Option<Op>)
        ensures
            r == Op::of_code(v),
    {
        match v {
            0x8005 => Some(Op::OpReqDevlist),
            0x0005 => Some(Op::OpRepDevlist),
            0x8003 => Some(Op::OpReqImport),
            0x0003 => Some(Op::OpRepImport),
            _ => None,
        }
    }
}

/// Per-URB op codes: the `command` field of a URB header.
#[derive(Copy, Clone, Debug, PartialEq, Eq, Structural)]
pub enum UrbOp {
    /// Receiver submits a USB Request Block.
    CmdSubmit,
    /// Receiver asks to cancel an outstanding URB.
    CmdUnlink,
    /// Server completes a URB.
    RetSubmit,
    /// Server acks an unlink.
    RetUnlink,
}

impl UrbOp {
    /// The code on the wire.
    pub open spec fn code(self) -> u32 {
        match self {
            UrbOp::CmdSubmit => 0x0000_0001,
            UrbOp::CmdUnlink => 0x0000_0002,
            UrbOp::RetSubmit => 0x0000_0003,
            UrbOp::RetUnlink => 0x0000_0004,
        }
    }

    /// The value that `v` stands for, if any.
    pub open spec fn of_code(v: u32) -> Option<UrbOp> {
        if v == 0x0000_0001 {
            Some(UrbOp::CmdSubmit)
        } else if v == 0x0000_0002 {
            Some(UrbOp::CmdUnlink)
        } else if v == 0x0000_0003 {
            Some(UrbOp::RetSubmit)
        } else if v == 0x0000_0004 {
            Some(UrbOp::RetUnlink)
        } else {
            None
        }
    }

    /// The code on the wire.
    pub fn as_u32(self) -> (v: u32)
        ensures
            v == self.code(),
    {
        match self {
            UrbOp::CmdSubmit => 0x0000_0001,
            UrbOp::CmdUnlink => 0x0000_0002,
            UrbOp::RetSubmit => 0x0000_0003,
            UrbOp::RetUnlink => 0x0000_0004,
        }
    }

    /// The value of a wire code.
    pub fn from_u32(v: u32) -> (r: Option<UrbOp>)
        ensures
            r == UrbOp::of_code(v),
    {
        match v {
            0x0000_0001 => Some(UrbOp::CmdSubmit),
            0x0000_0002 => Some(UrbOp::CmdUnlink),
            0x0000_0003 => Some(UrbOp::RetSubmit),
            0x0000_0004 => Some(UrbOp::RetUnlink),
            _ => None,
        }
    }
}

/// zerowire-specific reason byte for unlinks.
#[derive(Copy, Clone, Debug, PartialEq, Eq, Structural)]
pub enum UnlinkReason {
    Unspecified,
    Timeout,
    DeviceUnplugged,
    UserRevoked,
    SenderShutdown,
}

impl UnlinkReason {
    /// The code on the wire.
    pub open spec fn code(self) -> u8 {
        match self {
            UnlinkReason::Unspecified => 0x00,
            UnlinkReason::Timeout => 0x01,
            UnlinkReason::DeviceUnplugged => 0x02,
            UnlinkReason::UserRevoked => 0x03,
            UnlinkReason::SenderShutdown => 0x04,
        }
    }

    /// The value that `v` stands for.
    pub open spec fn of_code(v: u8) -> UnlinkReason {
        if v == 0x01 {
            UnlinkReason::Timeout
        } else if v == 0x02 {
            UnlinkReason::DeviceUnplugged
        } else if v == 0x03 {
            UnlinkReason::UserRevoked
        } else if v == 0x04 {
            UnlinkReason::SenderShutdown
        } else {
            UnlinkReason::Unspecified
        }
    }

    /// The code on the wire.
    pub fn as_u8(self) -> (v: u8)
        ensures
            v == self.code(),
    {
        match self {
            UnlinkReason::Unspecified => 0x00,
            UnlinkReason::Timeout => 0x01,
            UnlinkReason::DeviceUnplugged => 0x02,
            UnlinkReason::UserRevoked => 0x03,
            UnlinkReason::SenderShutdown => 0x04,
        }
    }

    /// The value of a wire code; an unknown code is `Unspecified`.
    pub fn from_u8(v: u8) -> (r: UnlinkReason)
        ensures
            r == UnlinkReason::of_code(v),
    {
        match v {
            0x01 => UnlinkReason::Timeout,
            0x02 => UnlinkReason::DeviceUnplugged,
            0x03 => UnlinkReason::UserRevoked,
            0x04 => UnlinkReason::SenderShutdown,
            _ => UnlinkReason::Unspecified,
        }
    }
}

/// USB/IP speed code, as in the kernel's `usb_device_speed`.
#[derive(Copy, Clone, Debug, PartialEq, Eq, Structural)]
pub enum UsbipSpeed {
    Unknown,
    Low,
    Full,
    High,
    Wireless,
    Super,
    SuperPlus,
}

impl UsbipSpeed {
    /// The code on the wire.
    pub open spec fn code(self) -> u8 {
        match self {
            UsbipSpeed::Unknown => 0,
            UsbipSpeed::Low => 1,
            UsbipSpeed::Full => 2,
            UsbipSpeed::High => 3,
            UsbipSpeed::Wireless => 4,
            UsbipSpeed::Super => 5,
            UsbipSpeed::SuperPlus => 6,
        }
    }

    /// The value that `v` stands for.
    pub open spec fn of_code(v: u8) -> UsbipSpeed {
        if v == 1 {
            UsbipSpeed::Low
        } else if v == 2 {
            UsbipSpeed::Full
        } else if v == 3 {
            UsbipSpeed::High
        } else if v == 4 {
            UsbipSpeed::Wireless
        } else if v == 5 {
            UsbipSpeed::Super
        } else if v == 6 {
            UsbipSpeed::SuperPlus
        } else {
            UsbipSpeed::Unknown
        }
    }

    /// The code on the wire.
    pub fn as_u8(self) -> (v: u8)
        ensures
            v == self.code(),
    {
        match self {
            UsbipSpeed::Unknown => 0,
            UsbipSpeed::Low => 1,
            UsbipSpeed::Full => 2,
            UsbipSpeed::High => 3,
            UsbipSpeed::Wireless => 4,
            UsbipSpeed::Super => 5,
            UsbipSpeed::SuperPlus => 6,
        }
    }

    /// The value of a wire code; an unknown code is `Unknown`.
    pub fn from_u8(v: u8) -> (r: UsbipSpeed)
        ensures
            r == UsbipSpeed::of_code(v),
    {
        match v {
            1 => UsbipSpeed::Low,
            2 => UsbipSpeed::Full,
            3 => UsbipSpeed::High,
            4 => UsbipSpeed::Wireless,
            5 => UsbipSpeed::Super,
            6 => UsbipSpeed::SuperPlus,
            _ => UsbipSpeed::Unknown,
        }
    }
}

/// Every op code names the op that wrote it; the tables are inverse.
pub proof fn lemma_op_codes_round_trip(op: Op, urb: UrbOp, reason: UnlinkReason, speed: UsbipSpeed)
    ensures
        Op::of_code(op.code()) == Some(op),
        UrbOp::of_code(urb.code()) == Some(urb),
        UnlinkReason::of_code(reason.code()) == reason,
        UsbipSpeed::of_code(speed.code()) == speed,
        forall|v: u16| Op::of_code(v) is Some ==> (#[trigger] Op::of_code(v))->Some_0.code() == v,
        forall|v: u32|
            UrbOp::of_code(v) is Some ==> (#[trigger] UrbOp::of_code(v))->Some_0.code() == v,
{
}

/// Why bytes are not a `UsbipFrame`.
#[derive(Debug, PartialEq, Eq)]
pub enum UsbipError {
    /// Fewer than the four bytes of an `import_id`.
    Short(usize),
}

impl UsbipError {
    /// The human-readable text of the error.
    pub open spec fn text(self) -> Seq<char> {
        match self {
            UsbipError::Short(n) => "frame too short for import_id ("@ + dec(n as nat) + " < 4)"@,
        }
    }

    /// The human-readable text of the error.
    pub fn message(&self) -> (s: String)
        ensures
            s@ == self.text(),
    {
        let mut s = String::new();
        match self {
            UsbipError::Short(n) => {
                push_str(&mut s, "frame too short for import_id (");
                push_dec(&mut s, *n as u64);
                push_str(&mut s, " < 4)");
            },
        }
        assert(s@ =~= self.text());
        s
    }
}

/// The payload bytes of a USB/IP packet `raw` that belongs to `import_id`.
pub open spec fn usbip_frame_bytes(import_id: u32, raw: Seq<u8>) -> Seq<u8> {
    be32(import_id) + raw
}

/// One USB/IP packet, demultiplexed.
///
/// The payload starts with a 4-byte big-endian `import_id` that names the
/// attached device, then the raw kernel-compatible USB/IP packet follows.
#[derive(Debug, PartialEq, Eq)]
pub struct UsbipFrame<'a> {
    pub import_id: u32,
    pub raw: &'a [u8],
}

impl<'a> UsbipFrame<'a> {
    /// A packet for the given import.
    pub fn new(import_id: u32, raw: &'a [u8]) -> (f: UsbipFrame<'a>)
        ensures
            f.import_id == import_id,
            f.raw@ == raw@,
    {
        UsbipFrame { import_id, raw }
    }

    /// Splits a payload into the import id and the packet.
    pub fn parse(payload: &'a [u8]) -> (r: Result<UsbipFrame<'a>, UsbipError>)
        ensures
            match r {
                Ok(f) => payload@.len() >= 4 && f.import_id == be32_at(payload@, 0) && f.raw@
                    == payload@.skip(4),
                Err(e) => payload@.len() < 4 && e == UsbipError::Short(payload@.len() as usize),
            },
    {
        if payload.len() < 4 {
            return Err(UsbipError::Short(payload.len()));
        }
        let import_id: u32 = read_u32(payload, 0);
        let raw = vstd::slice::slice_subrange(payload, 4, payload.len());
        assert(raw@ =~= payload@.skip(4));
        Ok(UsbipFrame { import_id, raw })
    }

    /// Appends the frame to `out`.
    pub fn encode_into(&self, out: &mut Vec<u8>)
        ensures
            final(out)@ == old(out)@ + usbip_frame_bytes(self.import_id, self.raw@),
    {
        push_u32(out, self.import_id);
        push_bytes(out, self.raw);
        assert(out@ =~= old(out)@ + usbip_frame_bytes(self.import_id, self.raw@));
    }

    /// Encodes to a fresh `Vec`.
    pub fn encode(&self) -> (v: Vec<u8>)
        ensures
            v@ == usbip_frame_bytes(self.import_id, self.raw@),
    {
        let mut v: Vec<u8> = Vec::new();
        self.encode_into(&mut v);
        assert(v@ =~= usbip_frame_bytes(self.import_id, self.raw@));
        v
    }
}

/// A frame reads back as the import id and packet it was made of, and every
/// payload of at least four bytes is the frame of what is read from it.
pub proof fn lemma_usbip_frame_round_trip(import_id: u32, raw: Seq<u8>, payload: Seq<u8>)
    ensures
        usbip_frame_bytes(import_id, raw).len() >= 4,
        be32_at(usbip_frame_bytes(import_id, raw), 0) == import_id,
        usbip_frame_bytes(import_id, raw).skip(4) == raw,
        payload.len() >= 4 ==> usbip_frame_bytes(be32_at(payload, 0), payload.skip(4)) == payload,
{
    let b = usbip_frame_bytes(import_id, raw);
    lemma_be32_round_trip(import_id);
    assert(be32_at(b, 0) == be32_at(be32(import_id), 0));
    assert(b.skip(4) =~= raw);
    if payload.len() >= 4 {
        lemma_be32_canonical(payload, 0);
        assert(usbip_frame_bytes(be32_at(payload, 0), payload.skip(4)) =~= payload);
    }
}

/// What the sender pushes to the receiver when a device is attached for USB/IP
/// passthrough. The receiver uses these fields verbatim when it tells its
/// kernel to take ownership of the TCP socket.
#[derive(Debug, PartialEq, Eq)]
pub struct UsbipAttachInfo {
    /// USB/IP busid, such as `"1-2"`. Stable per physical port.
    pub busid: String,
    /// Sender-side per-session id, multiplexed inside `UsbipFrame::import_id`.
    pub import_id: u32,
    /// vhci-hcd device id: `(busnum << 16) | devnum`.
    pub devid: u32,
    /// USB device speed, see `UsbipSpeed`.
    pub speed: u8,
    pub vendor_id: u16,
    pub product_id: u16,
    /// Hex-encoded raw `usb_device_descriptor` (18 bytes), for logging.
    pub descriptor_hex: Option<String>,
}

/// Model of a `UsbipAttachInfo`.
pub struct AttachModel {
    pub busid: Seq<char>,
    pub import_id: u32,
    pub devid: u32,
    pub speed: u8,
    pub vendor_id: u16,
    pub product_id: u16,
    pub descriptor_hex: Option<Seq<char>>,
}

impl View for UsbipAttachInfo {
    type V = AttachModel;

    open spec fn view(&self) -> AttachModel {
        AttachModel {
            busid: self.busid@,
            import_id: self.import_id,
            devid: self.devid,
            speed: self.speed,
            vendor_id: self.vendor_id,
            product_id: self.product_id,
            descriptor_hex: opt_text(self.descriptor_hex),
        }
    }
}

impl Clone for UsbipAttachInfo {
    fn clone(&self) -> (r: UsbipAttachInfo)
        ensures
            r@ == self@,
    {
        UsbipAttachInfo {
            busid: self.busid.clone(),
            import_id: self.import_id,
            devid: self.devid,
            speed: self.speed,
            vendor_id: self.vendor_id,
            product_id: self.product_id,
            descriptor_hex: clone_opt(&self.descriptor_hex),
        }
    }
}

/// Fixed kernel USB/IP header size.
pub const URB_HEADER_LEN: usize = 48;

/// Direction in a submit header: host to device.
pub const URB_DIR_OUT: u32 = 0;

/// Direction in a submit header: device to host.
pub const URB_DIR_IN: u32 = 1;

/// A short transfer counts as an error.
pub const URB_SHORT_NOT_OK: u32 = 0x0000_0001;

/// A zero-length packet ends the transfer.
pub const URB_ZERO_PACKET: u32 = 0x0000_0040;

/// The buffer is already mapped for DMA.
pub const URB_NO_TRANSFER_DMA_MAP: u32 = 0x0000_0004;

/// Endpoint type, used for dispatch. Not on the wire: the pump learns it from
/// the device's interface descriptors.
#[derive(Copy, Clone, Debug, PartialEq, Eq, Structural)]
pub enum EndpointType {
    Control,
    Isochronous,
    Bulk,
    Interrupt,
}

impl EndpointType {
    /// The transfer type as USB's `bmAttributes` numbers it.
    pub open spec fn code(self) -> u8 {
        match self {
            EndpointType::Control => 0,
            EndpointType::Isochronous => 1,
            EndpointType::Bulk => 2,
            EndpointType::Interrupt => 3,
        }
    }

    /// The transfer type as USB's `bmAttributes` numbers it.
    pub fn as_u8(self) -> (v: u8)
        ensures
            v == self.code(),
    {
        match self {
            EndpointType::Control => 0,
            EndpointType::Isochronous => 1,
            EndpointType::Bulk => 2,
            EndpointType::Interrupt => 3,
        }
    }
}

/// Why bytes are not the expected URB header.
#[derive(Debug, PartialEq, Eq)]
pub enum UrbError {
    /// Fewer bytes than a header.
    Short(usize),
    /// Another command than the expected one.
    UnknownCommand(u32),
}

impl UrbError {
    /// The human-readable text of the error.
    pub open spec fn text(self) -> Seq<char> {
        match self {
            UrbError::Short(n) => "urb header too short: "@ + dec(n as nat) + " < 48"@,
            UrbError::UnknownCommand(c) => "unknown urb command: 0x"@ + pad_front(
                hex(c as nat),
                8,
                '0',
            ),
        }
    }

    /// The human-readable text of the error.
    pub fn message(&self) -> (s: String)
        ensures
            s@ == self.text(),
    {
        let mut s = String::new();
        match self {
            UrbError::Short(n) => {
                push_str(&mut s, "urb header too short: ");
                push_dec(&mut s, *n as u64);
                push_str(&mut s, " < 48");
            },
            UrbError::UnknownCommand(c) => {
                push_str(&mut s, "unknown urb command: 0x");
                push_hex(&mut s, *c as u64, 8);
            },
        }
        assert(s@ =~= self.text());
        s
    }
}

/// A status as its 32 bits: two's complement.
pub open spec fn status_bits(status: i32) -> u32 {
    if status < 0 {
        (status + 0x1_0000_0000) as u32
    } else {
        status as u32
    }
}

/// The status that 32 bits stand for.
pub open spec fn status_of_bits(bits: u32) -> i32 {
    if bits >= 0x8000_0000 {
        (bits - 0x1_0000_0000) as i32
    } else {
        bits as i32
    }
}

fn status_to_u32(status: i32) -> (bits: u32)
    ensures
        bits == status_bits(status),
{
    if status < 0 {
        (status as i64 + 0x1_0000_0000) as u32
    } else {
        status as u32
    }
}

fn status_from_u32(bits: u32) -> (status: i32)
    ensures
        status == status_of_bits(bits),
{
    if bits >= 0x8000_0000 {
        (bits as i64 - 0x1_0000_0000) as i32
    } else {
        bits as i32
    }
}

/// The 32-bit words of a header, one after another.
pub open spec fn words_bytes(words: Seq<u32>) -> Seq<u8> {
    Seq::new(
        (4 * words.len()) as nat,
        |i: int| be32(words[i / 4])[i % 4],
    )
}

/// The outcome of looking for a header with the given command word.
pub open spec fn command_error(b: Seq<u8>, op: UrbOp) -> Option<UrbError> {
    if b.len() < URB_HEADER_LEN {
        Some(UrbError::Short(b.len() as usize))
    } else if be32_at(b, 0) != op.code() {
        Some(UrbError::UnknownCommand(be32_at(b, 0)))
    } else {
        None
    }
}

/// Checks length and command word of a header.
fn check_command(hdr: &[u8], op: UrbOp) -> (r: Result<(), UrbError>)
    ensures
        match r {
            Ok(_) => command_error(hdr@, op) is None,
            Err(e) => command_error(hdr@, op) == Some(e),
        },
{
    if hdr.len() < URB_HEADER_LEN {
        return Err(UrbError::Short(hdr.len()));
    }
    let command: u32 = read_u32(hdr, 0);
    if command != op.as_u32() {
        return Err(UrbError::UnknownCommand(command));
    }
    Ok(())
}

/// The header that holds the given words at its front and zeros behind.
fn header_of_words(words: &[u32]) -> (out: [u8; 48])
    requires
        words@.len() <= 12,
    ensures
        out@ == words_bytes(words@) + Seq::new((48 - 4 * words@.len()) as nat, |i: int| 0u8),
{
    let mut out: [u8; 48] = [0u8; 48];
    let mut k: usize = 0;
    while k < words.len()
        invariant
            k <= words@.len() <= 12,
            out@.len() == 48,
            forall|i: int| 0 <= i < 4 * k ==> #[trigger] out@[i] == be32(words@[i / 4])[i % 4],
            forall|i: int| 4 * k <= i < 48 ==> #[trigger] out@[i] == 0u8,
        decreases words@.len() - k,
    {
        let ghost before = out@;
        write_u32(&mut out, 4 * k, words[k]);
        assert forall|i: int| 0 <= i < 4 * (k + 1) implies #[trigger] out@[i] == be32(
            words@[i / 4],
        )[i % 4] by {
            if i < 4 * k {
                assert(out@[i] == before[i]);
            } else {
                assert(i / 4 == k && i % 4 == i - 4 * k);
            }
        }
        assert forall|i: int| 4 * (k + 1) <= i < 48 implies #[trigger] out@[i] == 0u8 by {
            assert(out@[i] == before[i]);
        }
        k += 1;
    }
    assert(out@ =~= words_bytes(words@) + Seq::new((48 - 4 * words@.len()) as nat, |i: int| 0u8));
    out
}

/// The word at position `k` of a header made of words is the one written there.
pub proof fn lemma_words_read_back(words: Seq<u32>, tail: Seq<u8>, k: int)
    requires
        0 <= k < words.len(),
    ensures
        be32_at(words_bytes(words) + tail, 4 * k) == words[k],
{
    let b = words_bytes(words) + tail;
    lemma_be32_round_trip(words[k]);
    assert(b[4 * k] == be32(words[k])[0]);
    assert(b[4 * k + 1] == be32(words[k])[1]);
    assert(b[4 * k + 2] == be32(words[k])[2]);
    assert(b[4 * k + 3] == be32(words[k])[3]);
}

/// USBIP_CMD_SUBMIT, receiver to sender.
///
/// For OUT transfers `transfer_buffer_length` bytes of transfer buffer follow
/// the header.
#[derive(Debug, Clone, Copy, PartialEq, Eq)]
pub struct CmdSubmit {
    pub seqnum: u32,
    pub devid: u32,
    pub direction: u32,
    pub ep: u32,
    pub transfer_flags: u32,
    pub transfer_buffer_length: u32,
    pub start_frame: u32,
    pub number_of_packets: u32,
    pub interval: u32,
    /// USB setup packet, all-zero when not a control transfer.
    pub setup: [u8; 8],
}

impl CmdSubmit {
    /// The words of the header, in wire order.
    pub open spec fn words(self) -> Seq<u32> {
        seq![
            UrbOp::CmdSubmit.code(),
            self.seqnum,
            self.devid,
            self.direction,
            self.ep,
            self.transfer_flags,
            self.transfer_buffer_length,
            self.start_frame,
            self.number_of_packets,
            self.interval,
        ]
    }

    /// The 48 bytes of the header.
    pub open spec fn bytes(self) -> Seq<u8> {
        words_bytes(self.words()) + self.setup@
    }

    /// The header whose fields stand in `b`.
    pub open spec fn at(b: Seq<u8>) -> CmdSubmit {
        CmdSubmit {
            seqnum: be32_at(b, 4),
            devid: be32_at(b, 8),
            direction: be32_at(b, 12),
            ep: be32_at(b, 16),
            transfer_flags: be32_at(b, 20),
            transfer_buffer_length: be32_at(b, 24),
            start_frame: be32_at(b, 28),
            number_of_packets: be32_at(b, 32),
            interval: be32_at(b, 36),
            setup: [b[40], b[41], b[42], b[43], b[44], b[45], b[46], b[47]],
        }
    }

    /// Reads a header from the front of `hdr`.
    pub fn parse(hdr: &[u8]) -> (r: Result<CmdSubmit, UrbError>)
        ensures
            match r {
                Ok(h) => command_error(hdr@, UrbOp::CmdSubmit) is None && h == CmdSubmit::at(hdr@),
                Err(e) => command_error(hdr@, UrbOp::CmdSubmit) == Some(e),
            },
            r is Ok <==> hdr@.len() >= 48 && be32_at(hdr@, 0) == 1,
            r is Err ==> r->Err_0 == if hdr@.len() < 48 {
                UrbError::Short(hdr@.len() as usize)
            } else {
                UrbError::UnknownCommand(be32_at(hdr@, 0))
            },
            r matches Ok(h) ==> {
                &&& h.seqnum == be32_at(hdr@, 4)
                &&& h.devid == be32_at(hdr@, 8)
                &&& h.direction == be32_at(hdr@, 12)
                &&& h.ep == be32_at(hdr@, 16)
                &&& h.transfer_flags == be32_at(hdr@, 20)
                &&& h.transfer_buffer_length == be32_at(hdr@, 24)
                &&& h.start_frame == be32_at(hdr@, 28)
                &&& h.number_of_packets == be32_at(hdr@, 32)
                &&& h.interval == be32_at(hdr@, 36)
                &&& forall|i: int| 0 <= i < 8 ==> #[trigger] h.setup@[i] == hdr@[40 + i]
            },
    {
        match check_command(hdr, UrbOp::CmdSubmit) {
            Err(e) => return Err(e),
            Ok(_) => {},
        }
        let setup: [u8; 8] = [
            hdr[40],
            hdr[41],
            hdr[42],
            hdr[43],
            hdr[44],
            hdr[45],
            hdr[46],
            hdr[47],
        ];
        Ok(
            CmdSubmit {
                seqnum: read_u32(hdr, 4),
                devid: read_u32(hdr, 8),
                direction: read_u32(hdr, 12),
                ep: read_u32(hdr, 16),
                transfer_flags: read_u32(hdr, 20),
                transfer_buffer_length: read_u32(hdr, 24),
                start_frame: read_u32(hdr, 28),
                number_of_packets: read_u32(hdr, 32),
                interval: read_u32(hdr, 36),
                setup,
            },
        )
    }

    /// The 48 bytes of the header.
    pub fn encode(&self) -> (out: [u8; 48])
        ensures
            out@ == self.bytes(),
            be32_at(out@, 0) == 1,
            be32_at(out@, 4) == self.seqnum,
            be32_at(out@, 8) == self.devid,
            be32_at(out@, 12) == self.direction,
            be32_at(out@, 16) == self.ep,
            be32_at(out@, 20) == self.transfer_flags,
            be32_at(out@, 24) == self.transfer_buffer_length,
            be32_at(out@, 28) == self.start_frame,
            be32_at(out@, 32) == self.number_of_packets,
            be32_at(out@, 36) == self.interval,
            forall|i: int| 0 <= i < 8 ==> #[trigger] out@[40 + i] == self.setup@[i],
    {
        let words: [u32; 10] = [
            UrbOp::CmdSubmit.as_u32(),
            self.seqnum,
            self.devid,
            self.direction,
            self.ep,
            self.transfer_flags,
            self.transfer_buffer_length,
            self.start_frame,
            self.number_of_packets,
            self.interval,
        ];
        assert(words@ =~= self.words());
        let mut out: [u8; 48] = header_of_words(&words);
        let ghost front = out@;
        let mut i: usize = 0;
        while i < 8
            invariant
                i <= 8,
                out@.len() == 48,
                front.len() == 48,
                forall|j: int| 0 <= j < 40 ==> out@[j] == front[j],
                forall|j: int| 40 <= j < 40 + i ==> out@[j] == self.setup@[j - 40],
            decreases 8 - i,
        {
            out[40 + i] = self.setup[i];
            i += 1;
        }
        assert forall|j: int| 0 <= j < 40 implies out@[j] == self.bytes()[j] by {
            assert(out@[j] == front[j]);
        }
        assert(out@ =~= self.bytes());
        proof {
            lemma_cmd_submit_layout(*self, out@);
        }
        out
    }

    /// Endpoint 0 is the control endpoint.
    pub fn is_control(&self) -> (r: bool)
        ensures
            r == (self.ep == 0),
    {
        self.ep == 0
    }
}

/// USBIP_RET_SUBMIT, sender to receiver.
///
/// For IN transfers the `actual_length` bytes that the device returned follow
/// the header.
#[derive(Debug, Clone, Copy, PartialEq, Eq)]
pub struct RetSubmit {
    pub seqnum: u32,
    /// The kernel ignores it; pumps echo 0.
    pub devid: u32,
    pub direction: u32,
    pub ep: u32,
    /// 0 on success, negated `errno` on failure (-110 is -ETIMEDOUT).
    pub status: i32,
    pub actual_length: u32,
    pub start_frame: u32,
    pub number_of_packets: u32,
    pub error_count: u32,
}

impl RetSubmit {
    /// The words of the header, in wire order.
    pub open spec fn words(self) -> Seq<u32> {
        seq![
            UrbOp::RetSubmit.code(),
            self.seqnum,
            self.devid,
            self.direction,
            self.ep,
            status_bits(self.status),
            self.actual_length,
            self.start_frame,
            self.number_of_packets,
            self.error_count,
        ]
    }

    /// The 48 bytes of the header.
    pub open spec fn bytes(self) -> Seq<u8> {
        words_bytes(self.words()) + Seq::new(8, |i: int| 0u8)
    }

    /// The header whose fields stand in `b`.
    pub open spec fn at(b: Seq<u8>) -> RetSubmit {
        RetSubmit {
            seqnum: be32_at(b, 4),
            devid: be32_at(b, 8),
            direction: be32_at(b, 12),
            ep: be32_at(b, 16),
            status: status_of_bits(be32_at(b, 20)),
            actual_length: be32_at(b, 24),
            start_frame: be32_at(b, 28),
            number_of_packets: be32_at(b, 32),
            error_count: be32_at(b, 36),
        }
    }

    /// Reads a header from the front of `hdr`.
    pub fn parse(hdr: &[u8]) -> (r: Result<RetSubmit, UrbError>)
        ensures
            match r {
                Ok(h) => command_error(hdr@, UrbOp::RetSubmit) is None && h == RetSubmit::at(hdr@),
                Err(e) => command_error(hdr@, UrbOp::RetSubmit) == Some(e),
            },
            r is Ok <==> hdr@.len() >= 48 && be32_at(hdr@, 0) == 3,
            r is Err ==> r->Err_0 == if hdr@.len() < 48 {
                UrbError::Short(hdr@.len() as usize)
            } else {
                UrbError::UnknownCommand(be32_at(hdr@, 0))
            },
            r matches Ok(h) ==> {
                &&& h.seqnum == be32_at(hdr@, 4)
                &&& h.devid == be32_at(hdr@, 8)
                &&& h.direction == be32_at(hdr@, 12)
                &&& h.ep == be32_at(hdr@, 16)
                &&& h.status == if be32_at(hdr@, 20) < 0x8000_0000 {
                    be32_at(hdr@, 20) as int
                } else {
                    be32_at(hdr@, 20) - 0x1_0000_0000
                }
                &&& h.actual_length == be32_at(hdr@, 24)
                &&& h.start_frame == be32_at(hdr@, 28)
                &&& h.number_of_packets == be32_at(hdr@, 32)
                &&& h.error_count == be32_at(hdr@, 36)
            },
    {
        match check_command(hdr, UrbOp::RetSubmit) {
            Err(e) => return Err(e),
            Ok(_) => {},
        }
        Ok(
            RetSubmit {
                seqnum: read_u32(hdr, 4),
                devid: read_u32(hdr, 8),
                direction: read_u32(hdr, 12),
                ep: read_u32(hdr, 16),
                status: status_from_u32(read_u32(hdr, 20)),
                actual_length: read_u32(hdr, 24),
                start_frame: read_u32(hdr, 28),
                number_of_packets: read_u32(hdr, 32),
                error_count: read_u32(hdr, 36),
            },
        )
    }

    /// The 48 bytes of the header.
    pub fn encode(&self) -> (out: [u8; 48])
        ensures
            out@ == self.bytes(),
            be32_at(out@, 0) == 3,
            be32_at(out@, 4) == self.seqnum,
            be32_at(out@, 8) == self.devid,
            be32_at(out@, 12) == self.direction,
            be32_at(out@, 16) == self.ep,
            be32_at(out@, 20) == if self.status < 0 {
                self.status + 0x1_0000_0000
            } else {
                self.status as int
            },
            be32_at(out@, 24) == self.actual_length,
            be32_at(out@, 28) == self.start_frame,
            be32_at(out@, 32) == self.number_of_packets,
            be32_at(out@, 36) == self.error_count,
            forall|i: int| 40 <= i < 48 ==> #[trigger] out@[i] == 0,
    {
        let words: [u32; 10] = [
            UrbOp::RetSubmit.as_u32(),
            self.seqnum,
            self.devid,
            self.direction,
            self.ep,
            status_to_u32(self.status),
            self.actual_length,
            self.start_frame,
            self.number_of_packets,
            self.error_count,
        ];
        assert(words@ =~= self.words());
        let out: [u8; 48] = header_of_words(&words);
        assert(out@ =~= self.bytes());
        proof {
            lemma_ret_submit_layout(*self, out@);
        }
        out
    }
}

/// USBIP_CMD_UNLINK, receiver to sender. No body.
#[derive(Debug, Clone, Copy, PartialEq, Eq)]
pub struct CmdUnlink {
    pub seqnum: u32,
    pub devid: u32,
    pub direction: u32,
    pub ep: u32,
    /// Sequence number of the in-flight submit to cancel.
    pub unlink_seqnum: u32,
}

impl CmdUnlink {
    /// The words of the header, in wire order.
    pub open spec fn words(self) -> Seq<u32> {
        seq![
            UrbOp::CmdUnlink.code(),
            self.seqnum,
            self.devid,
            self.direction,
            self.ep,
            self.unlink_seqnum,
        ]
    }

    /// The 48 bytes of the header.
    pub open spec fn bytes(self) -> Seq<u8> {
        words_bytes(self.words()) + Seq::new(24, |i: int| 0u8)
    }

    /// The header whose fields stand in `b`.
    pub open spec fn at(b: Seq<u8>) -> CmdUnlink {
        CmdUnlink {
            seqnum: be32_at(b, 4),
            devid: be32_at(b, 8),
            direction: be32_at(b, 12),
            ep: be32_at(b, 16),
            unlink_seqnum: be32_at(b, 20),
        }
    }

    /// Reads a header from the front of `hdr`.
    pub fn parse(hdr: &[u8]) -> (r: Result<CmdUnlink, UrbError>)
        ensures
            match r {
                Ok(h) => command_error(hdr@, UrbOp::CmdUnlink) is None && h == CmdUnlink::at(hdr@),
                Err(e) => command_error(hdr@, UrbOp::CmdUnlink) == Some(e),
            },
            r is Ok <==> hdr@.len() >= 48 && be32_at(hdr@, 0) == 2,
            r is Err ==> r->Err_0 == if hdr@.len() < 48 {
                UrbError::Short(hdr@.len() as usize)
            } else {
                UrbError::UnknownCommand(be32_at(hdr@, 0))
            },
            r matches Ok(h) ==> {
                &&& h.seqnum == be32_at(hdr@, 4)
                &&& h.devid == be32_at(hdr@, 8)
                &&& h.direction == be32_at(hdr@, 12)
                &&& h.ep == be32_at(hdr@, 16)
                &&& h.unlink_seqnum == be32_at(hdr@, 20)
            },
    {
        match check_command(hdr, UrbOp::CmdUnlink) {
            Err(e) => return Err(e),
            Ok(_) => {},
        }
        Ok(
            CmdUnlink {
                seqnum: read_u32(hdr, 4),
                devid: read_u32(hdr, 8),
                direction: read_u32(hdr, 12),
                ep: read_u32(hdr, 16),
                unlink_seqnum: read_u32(hdr, 20),
            },
        )
    }

    /// The 48 bytes of the header.
    pub fn encode(&self) -> (out: [u8; 48])
        ensures
            out@ == self.bytes(),
            be32_at(out@, 0) == 2,
            be32_at(out@, 4) == self.seqnum,
            be32_at(out@, 8) == self.devid,
            be32_at(out@, 12) == self.direction,
            be32_at(out@, 16) == self.ep,
            be32_at(out@, 20) == self.unlink_seqnum,
            forall|i: int| 24 <= i < 48 ==> #[trigger] out@[i] == 0,
    {
        let words: [u32; 6] = [
            UrbOp::CmdUnlink.as_u32(),
            self.seqnum,
            self.devid,
            self.direction,
            self.ep,
            self.unlink_seqnum,
        ];
        assert(words@ =~= self.words());
        let out: [u8; 48] = header_of_words(&words);
        assert(out@ =~= self.bytes());
        proof {
            lemma_cmd_unlink_layout(*self, out@);
        }
        out
    }
}

/// USBIP_RET_UNLINK, sender to receiver. No body.
#[derive(Debug, Clone, Copy, PartialEq, Eq)]
pub struct RetUnlink {
    pub seqnum: u32,
    pub devid: u32,
    pub direction: u32,
    pub ep: u32,
    /// 0 on success, -104 (-ECONNRESET) if the URB had already completed.
    pub status: i32,
}

impl RetUnlink {
    /// The words of the header, in wire order.
    pub open spec fn words(self) -> Seq<u32> {
        seq![
            UrbOp::RetUnlink.code(),
            self.seqnum,
            self.devid,
            self.direction,
            self.ep,
            status_bits(self.status),
        ]
    }

    /// The 48 bytes of the header.
    pub open spec fn bytes(self) -> Seq<u8> {
        words_bytes(self.words()) + Seq::new(24, |i: int| 0u8)
    }

    /// The header whose fields stand in `b`.
    pub open spec fn at(b: Seq<u8>) -> RetUnlink {
        RetUnlink {
            seqnum: be32_at(b, 4),
            devid: be32_at(b, 8),
            direction: be32_at(b, 12),
            ep: be32_at(b, 16),
            status: status_of_bits(be32_at(b, 20)),
        }
    }

    /// Reads a header from the front of `hdr`.
    pub fn parse(hdr: &[u8]) -> (r: Result<RetUnlink, UrbError>)
        ensures
            match r {
                Ok(h) => command_error(hdr@, UrbOp::RetUnlink) is None && h == RetUnlink::at(hdr@),
                Err(e) => command_error(hdr@, UrbOp::RetUnlink) == Some(e),
            },
            r is Ok <==> hdr@.len() >= 48 && be32_at(hdr@, 0) == 4,
            r is Err ==> r->Err_0 == if hdr@.len() < 48 {
                UrbError::Short(hdr@.len() as usize)
            } else {
                UrbError::UnknownCommand(be32_at(hdr@, 0))
            },
            r matches Ok(h) ==> {
                &&& h.seqnum == be32_at(hdr@, 4)
                &&& h.devid == be32_at(hdr@, 8)
                &&& h.direction == be32_at(hdr@, 12)
                &&& h.ep == be32_at(hdr@, 16)
                &&& h.status == if be32_at(hdr@, 20) < 0x8000_0000 {
                    be32_at(hdr@, 20) as int
                } else {
                    be32_at(hdr@, 20) - 0x1_0000_0000
                }
            },
    {
        match check_command(hdr, UrbOp::RetUnlink) {
            Err(e) => return Err(e),
            Ok(_) => {},
        }
        Ok(
            RetUnlink {
                seqnum: read_u32(hdr, 4),
                devid: read_u32(hdr, 8),
                direction: read_u32(hdr, 12),
                ep: read_u32(hdr, 16),
                status: status_from_u32(read_u32(hdr, 20)),
            },
        )
    }

    /// The 48 bytes of the header.
    pub fn encode(&self) -> (out: [u8; 48])
        ensures
            out@ == self.bytes(),
            be32_at(out@, 0) == 4,
            be32_at(out@, 4) == self.seqnum,
            be32_at(out@, 8) == self.devid,
            be32_at(out@, 12) == self.direction,
            be32_at(out@, 16) == self.ep,
            be32_at(out@, 20) == if self.status < 0 {
                self.status + 0x1_0000_0000
            } else {
                self.status as int
            },
            forall|i: int| 24 <= i < 48 ==> #[trigger] out@[i] == 0,
    {
        let words: [u32; 6] = [
            UrbOp::RetUnlink.as_u32(),
            self.seqnum,
            self.devid,
            self.direction,
            self.ep,
            status_to_u32(self.status),
        ];
        assert(words@ =~= self.words());
        let out: [u8; 48] = header_of_words(&words);
        assert(out@ =~= self.bytes());
        proof {
            lemma_ret_unlink_layout(*self, out@);
        }
        out
    }
}

/// Reads the command word at the start of a URB header. `None` if there are
/// fewer than four bytes or the command is not a `UrbOp`.
pub fn peek_urb_op(hdr: &[u8]) -> (r: Option<UrbOp>)
    ensures
        r == peek_op(hdr@),
{
    if hdr.len() < 4 {
        return None;
    }
    UrbOp::from_u32(read_u32(hdr, 0))
}

/// The op that the first four bytes of a buffer name.
pub open spec fn peek_op(b: Seq<u8>) -> Option<UrbOp> {
    if b.len() < 4 {
        None
    } else {
        UrbOp::of_code(be32_at(b, 0))
    }
}

/// Words that were read one after another encode to the bytes they came from.
pub proof fn lemma_words_canonical(words: Seq<u32>, b: Seq<u8>)
    requires
        4 * words.len() <= b.len(),
        forall|k: int| 0 <= k < words.len() ==> #[trigger] words[k] == be32_at(b, 4 * k),
    ensures
        words_bytes(words) == b.take(4 * words.len() as int),
{
    assert forall|i: int| 0 <= i < 4 * words.len() implies words_bytes(words)[i] == b[i] by {
        let k = i / 4;
        lemma_be32_canonical(b, 4 * k);
        assert(words[k] == be32_at(b, 4 * k));
        assert(b.subrange(4 * k, 4 * k + 4)[i % 4] == b[i]);
    }
    assert(words_bytes(words) =~= b.take(4 * words.len() as int));
}

/// A `CmdSubmit` header reads back as itself, whatever bytes follow it.
pub proof fn lemma_cmd_submit_round_trip(h: CmdSubmit, rest: Seq<u8>)
    ensures
        h.bytes().len() == URB_HEADER_LEN,
        command_error(h.bytes() + rest, UrbOp::CmdSubmit) is None,
        peek_op(h.bytes() + rest) == Some(UrbOp::CmdSubmit),
        CmdSubmit::at(h.bytes() + rest) == h,
{
    let b = h.bytes() + rest;
    let tail = b.skip(40);
    assert(b =~= words_bytes(h.words()) + tail);
    lemma_words_read_back(h.words(), tail, 0);
    lemma_words_read_back(h.words(), tail, 1);
    lemma_words_read_back(h.words(), tail, 2);
    lemma_words_read_back(h.words(), tail, 3);
    lemma_words_read_back(h.words(), tail, 4);
    lemma_words_read_back(h.words(), tail, 5);
    lemma_words_read_back(h.words(), tail, 6);
    lemma_words_read_back(h.words(), tail, 7);
    lemma_words_read_back(h.words(), tail, 8);
    lemma_words_read_back(h.words(), tail, 9);
    assert(CmdSubmit::at(b).setup@ =~= h.setup@);
    assert(CmdSubmit::at(b).setup =~= h.setup);
}

/// Writing a `CmdSubmit` that was read gives back the same 48 bytes.
pub proof fn lemma_cmd_submit_canonical(b: Seq<u8>)
    requires
        command_error(b, UrbOp::CmdSubmit) is None,
    ensures
        CmdSubmit::at(b).bytes() == b.take(48),
{
    let h = CmdSubmit::at(b);
    assert forall|k: int| 0 <= k < h.words().len() implies #[trigger] h.words()[k] == be32_at(
        b,
        4 * k,
    ) by {
        lemma_status_bits(0, be32_at(b, 4 * k));
    }
    lemma_words_canonical(h.words(), b);
    assert(h.bytes() =~= b.take(48));
}

/// A `RetSubmit` header reads back as itself, whatever bytes follow it.
pub proof fn lemma_ret_submit_round_trip(h: RetSubmit, rest: Seq<u8>)
    ensures
        h.bytes().len() == URB_HEADER_LEN,
        command_error(h.bytes() + rest, UrbOp::RetSubmit) is None,
        peek_op(h.bytes() + rest) == Some(UrbOp::RetSubmit),
        RetSubmit::at(h.bytes() + rest) == h,
{
    let b = h.bytes() + rest;
    let tail = b.skip(40);
    assert(b =~= words_bytes(h.words()) + tail);
    lemma_words_read_back(h.words(), tail, 0);
    lemma_words_read_back(h.words(), tail, 1);
    lemma_words_read_back(h.words(), tail, 2);
    lemma_words_read_back(h.words(), tail, 3);
    lemma_words_read_back(h.words(), tail, 4);
    lemma_words_read_back(h.words(), tail, 5);
    lemma_words_read_back(h.words(), tail, 6);
    lemma_words_read_back(h.words(), tail, 7);
    lemma_words_read_back(h.words(), tail, 8);
    lemma_words_read_back(h.words(), tail, 9);
}

/// Writing a `RetSubmit` that was read gives back its 40 defined bytes, and zeros
/// for the padding.
pub proof fn lemma_ret_submit_canonical(b: Seq<u8>)
    requires
        command_error(b, UrbOp::RetSubmit) is None,
    ensures
        RetSubmit::at(b).bytes() == b.take(40) + Seq::new(8, |i: int| 0u8),
{
    let h = RetSubmit::at(b);
    assert forall|k: int| 0 <= k < h.words().len() implies #[trigger] h.words()[k] == be32_at(
        b,
        4 * k,
    ) by {
        lemma_status_bits(0, be32_at(b, 4 * k));
    }
    lemma_words_canonical(h.words(), b);
    assert(h.bytes() =~= b.take(40) + Seq::new(8, |i: int| 0u8));
}

/// A `CmdUnlink` header reads back as itself, whatever bytes follow it.
pub proof fn lemma_cmd_unlink_round_trip(h: CmdUnlink, rest: Seq<u8>)
    ensures
        h.bytes().len() == URB_HEADER_LEN,
        command_error(h.bytes() + rest, UrbOp::CmdUnlink) is None,
        peek_op(h.bytes() + rest) == Some(UrbOp::CmdUnlink),
        CmdUnlink::at(h.bytes() + rest) == h,
{
    let b = h.bytes() + rest;
    let tail = b.skip(24);
    assert(b =~= words_bytes(h.words()) + tail);
    lemma_words_read_back(h.words(), tail, 0);
    lemma_words_read_back(h.words(), tail, 1);
    lemma_words_read_back(h.words(), tail, 2);
    lemma_words_read_back(h.words(), tail, 3);
    lemma_words_read_back(h.words(), tail, 4);
    lemma_words_read_back(h.words(), tail, 5);
}

/// Writing a `CmdUnlink` that was read gives back its 24 defined bytes, and zeros
/// for the padding.
pub proof fn lemma_cmd_unlink_canonical(b: Seq<u8>)
    requires
        command_error(b, UrbOp::CmdUnlink) is None,
    ensures
        CmdUnlink::at(b).bytes() == b.take(24) + Seq::new(24, |i: int| 0u8),
{
    let h = CmdUnlink::at(b);
    assert forall|k: int| 0 <= k < h.words().len() implies #[trigger] h.words()[k] == be32_at(
        b,
        4 * k,
    ) by {
        lemma_status_bits(0, be32_at(b, 4 * k));
    }
    lemma_words_canonical(h.words(), b);
    assert(h.bytes() =~= b.take(24) + Seq::new(24, |i: int| 0u8));
}

/// A `RetUnlink` header reads back as itself, whatever bytes follow it.
pub proof fn lemma_ret_unlink_round_trip(h: RetUnlink, rest: Seq<u8>)
    ensures
        h.bytes().len() == URB_HEADER_LEN,
        command_error(h.bytes() + rest, UrbOp::RetUnlink) is None,
        peek_op(h.bytes() + rest) == Some(UrbOp::RetUnlink),
        RetUnlink::at(h.bytes() + rest) == h,
{
    let b = h.bytes() + rest;
    let tail = b.skip(24);
    assert(b =~= words_bytes(h.words()) + tail);
    lemma_words_read_back(h.words(), tail, 0);
    lemma_words_read_back(h.words(), tail, 1);
    lemma_words_read_back(h.words(), tail, 2);
    lemma_words_read_back(h.words(), tail, 3);
    lemma_words_read_back(h.words(), tail, 4);
    lemma_words_read_back(h.words(), tail, 5);
}

/// Writing a `RetUnlink` that was read gives back its 24 defined bytes, and zeros
/// for the padding.
pub proof fn lemma_ret_unlink_canonical(b: Seq<u8>)
    requires
        command_error(b, UrbOp::RetUnlink) is None,
    ensures
        RetUnlink::at(b).bytes() == b.take(24) + Seq::new(24, |i: int| 0u8),
{
    let h = RetUnlink::at(b);
    assert forall|k: int| 0 <= k < h.words().len() implies #[trigger] h.words()[k] == be32_at(
        b,
        4 * k,
    ) by {
        lemma_status_bits(0, be32_at(b, 4 * k));
    }
    lemma_words_canonical(h.words(), b);
    assert(h.bytes() =~= b.take(24) + Seq::new(24, |i: int| 0u8));
}

/// A buffer is the header of at most one command, and the peeked op says which.
pub proof fn lemma_urb_kinds_exclusive(b: Seq<u8>, op: UrbOp, other: UrbOp)
    requires
        command_error(b, op) is None,
    ensures
        peek_op(b) == Some(op),
        command_error(b, other) is None ==> other == op,
{
}

/// A status keeps its value through its 32 bits, in both directions.
pub proof fn lemma_status_bits(status: i32, bits: u32)
    ensures
        status_of_bits(status_bits(status)) == status,
        status_bits(status_of_bits(bits)) == bits,
{
}

/// The kernel's layout of a `CmdSubmit` header: each field stands at its own
/// offset, as a big-endian word, and the setup packet ends it.
pub proof fn lemma_cmd_submit_layout(h: CmdSubmit, b: Seq<u8>)
    ensures
        h.bytes().len() == 48,
        be32_at(h.bytes(), 0) == 1,
        be32_at(h.bytes(), 4) == h.seqnum,
        be32_at(h.bytes(), 8) == h.devid,
        be32_at(h.bytes(), 12) == h.direction,
        be32_at(h.bytes(), 16) == h.ep,
        be32_at(h.bytes(), 20) == h.transfer_flags,
        be32_at(h.bytes(), 24) == h.transfer_buffer_length,
        be32_at(h.bytes(), 28) == h.start_frame,
        be32_at(h.bytes(), 32) == h.number_of_packets,
        be32_at(h.bytes(), 36) == h.interval,
        forall|i: int| 0 <= i < 8 ==> #[trigger] h.bytes()[40 + i] == h.setup@[i],
        CmdSubmit::at(b).seqnum == be32_at(b, 4),
        CmdSubmit::at(b).devid == be32_at(b, 8),
        CmdSubmit::at(b).direction == be32_at(b, 12),
        CmdSubmit::at(b).ep == be32_at(b, 16),
        CmdSubmit::at(b).transfer_flags == be32_at(b, 20),
        CmdSubmit::at(b).transfer_buffer_length == be32_at(b, 24),
        CmdSubmit::at(b).start_frame == be32_at(b, 28),
        CmdSubmit::at(b).number_of_packets == be32_at(b, 32),
        CmdSubmit::at(b).interval == be32_at(b, 36),
        forall|i: int| 0 <= i < 8 ==> #[trigger] CmdSubmit::at(b).setup@[i] == b[40 + i],
{
    let all = h.bytes();
    let tail = all.skip(40);
    assert(all =~= words_bytes(h.words()) + tail);
    lemma_words_read_back(h.words(), tail, 0);
    lemma_words_read_back(h.words(), tail, 1);
    lemma_words_read_back(h.words(), tail, 2);
    lemma_words_read_back(h.words(), tail, 3);
    lemma_words_read_back(h.words(), tail, 4);
    lemma_words_read_back(h.words(), tail, 5);
    lemma_words_read_back(h.words(), tail, 6);
    lemma_words_read_back(h.words(), tail, 7);
    lemma_words_read_back(h.words(), tail, 8);
    lemma_words_read_back(h.words(), tail, 9);
}

/// The kernel's layout of a `RetSubmit` header: each field stands at its own
/// offset, as a big-endian word, and zeros end it.
pub proof fn lemma_ret_submit_layout(h: RetSubmit, b: Seq<u8>)
    ensures
        h.bytes().len() == 48,
        be32_at(h.bytes(), 0) == 3,
        be32_at(h.bytes(), 4) == h.seqnum,
        be32_at(h.bytes(), 8) == h.devid,
        be32_at(h.bytes(), 12) == h.direction,
        be32_at(h.bytes(), 16) == h.ep,
        be32_at(h.bytes(), 20) == if h.status < 0 {
            h.status + 0x1_0000_0000
        } else {
            h.status as int
        },
        be32_at(h.bytes(), 24) == h.actual_length,
        be32_at(h.bytes(), 28) == h.start_frame,
        be32_at(h.bytes(), 32) == h.number_of_packets,
        be32_at(h.bytes(), 36) == h.error_count,
        forall|i: int| 40 <= i < 48 ==> #[trigger] h.bytes()[i] == 0,
        RetSubmit::at(b).seqnum == be32_at(b, 4),
        RetSubmit::at(b).devid == be32_at(b, 8),
        RetSubmit::at(b).direction == be32_at(b, 12),
        RetSubmit::at(b).ep == be32_at(b, 16),
        RetSubmit::at(b).status == if be32_at(b, 20) < 0x8000_0000 {
            be32_at(b, 20) as int
        } else {
            be32_at(b, 20) - 0x1_0000_0000
        },
        RetSubmit::at(b).actual_length == be32_at(b, 24),
        RetSubmit::at(b).start_frame == be32_at(b, 28),
        RetSubmit::at(b).number_of_packets == be32_at(b, 32),
        RetSubmit::at(b).error_count == be32_at(b, 36),
{
    let all = h.bytes();
    let tail = all.skip(40);
    assert(all =~= words_bytes(h.words()) + tail);
    lemma_words_read_back(h.words(), tail, 0);
    lemma_words_read_back(h.words(), tail, 1);
    lemma_words_read_back(h.words(), tail, 2);
    lemma_words_read_back(h.words(), tail, 3);
    lemma_words_read_back(h.words(), tail, 4);
    lemma_words_read_back(h.words(), tail, 5);
    lemma_words_read_back(h.words(), tail, 6);
    lemma_words_read_back(h.words(), tail, 7);
    lemma_words_read_back(h.words(), tail, 8);
    lemma_words_read_back(h.words(), tail, 9);
}

/// The kernel's layout of a `CmdUnlink` header: each field stands at its own
/// offset, as a big-endian word, and zeros end it.
pub proof fn lemma_cmd_unlink_layout(h: CmdUnlink, b: Seq<u8>)
    ensures
        h.bytes().len() == 48,
        be32_at(h.bytes(), 0) == 2,
        be32_at(h.bytes(), 4) == h.seqnum,
        be32_at(h.bytes(), 8) == h.devid,
        be32_at(h.bytes(), 12) == h.direction,
        be32_at(h.bytes(), 16) == h.ep,
        be32_at(h.bytes(), 20) == h.unlink_seqnum,
        forall|i: int| 24 <= i < 48 ==> #[trigger] h.bytes()[i] == 0,
        CmdUnlink::at(b).seqnum == be32_at(b, 4),
        CmdUnlink::at(b).devid == be32_at(b, 8),
        CmdUnlink::at(b).direction == be32_at(b, 12),
        CmdUnlink::at(b).ep == be32_at(b, 16),
        CmdUnlink::at(b).unlink_seqnum == be32_at(b, 20),
{
    let all = h.bytes();
    let tail = all.skip(24);
    assert(all =~= words_bytes(h.words()) + tail);
    lemma_words_read_back(h.words(), tail, 0);
    lemma_words_read_back(h.words(), tail, 1);
    lemma_words_read_back(h.words(), tail, 2);
    lemma_words_read_back(h.words(), tail, 3);
    lemma_words_read_back(h.words(), tail, 4);
    lemma_words_read_back(h.words(), tail, 5);
}

/// The kernel's layout of a `RetUnlink` header: each field stands at its own
/// offset, as a big-endian word, and zeros end it.
pub proof fn lemma_ret_unlink_layout(h: RetUnlink, b: Seq<u8>)
    ensures
        h.bytes().len() == 48,
        be32_at(h.bytes(), 0) == 4,
        be32_at(h.bytes(), 4) == h.seqnum,
        be32_at(h.bytes(), 8) == h.devid,
        be32_at(h.bytes(), 12) == h.direction,
        be32_at(h.bytes(), 16) == h.ep,
        be32_at(h.bytes(), 20) == if h.status < 0 {
            h.status + 0x1_0000_0000
        } else {
            h.status as int
        },
        forall|i: int| 24 <= i < 48 ==> #[trigger] h.bytes()[i] == 0,
        RetUnlink::at(b).seqnum == be32_at(b, 4),
        RetUnlink::at(b).devid == be32_at(b, 8),
        RetUnlink::at(b).direction == be32_at(b, 12),
        RetUnlink::at(b).ep == be32_at(b, 16),
        RetUnlink::at(b).status == if be32_at(b, 20) < 0x8000_0000 {
            be32_at(b, 20) as int
        } else {
            be32_at(b, 20) - 0x1_0000_0000
        },
{
    let all = h.bytes();
    let tail = all.skip(24);
    assert(all =~= words_bytes(h.words()) + tail);
    lemma_words_read_back(h.words(), tail, 0);
    lemma_words_read_back(h.words(), tail, 1);
    lemma_words_read_back(h.words(), tail, 2);
    lemma_words_read_back(h.words(), tail, 3);
    lemma_words_read_back(h.words(), tail, 4);
    lemma_words_read_back(h.words(), tail, 5);
}

/// The op that a header names, by the number in its first word: 1 is a
/// submit, 2 an unlink, 3 and 4 are their returns.
pub proof fn lemma_urb_ops_by_number(b: Seq<u8>)
    ensures
        peek_op(b) == Some(UrbOp::CmdSubmit) <==> b.len() >= 4 && be32_at(b, 0) == 1,
        peek_op(b) == Some(UrbOp::CmdUnlink) <==> b.len() >= 4 && be32_at(b, 0) == 2,
        peek_op(b) == Some(UrbOp::RetSubmit) <==> b.len() >= 4 && be32_at(b, 0) == 3,
        peek_op(b) == Some(UrbOp::RetUnlink) <==> b.len() >= 4 && be32_at(b, 0) == 4,
{
}

/// Requests of the receiver carry the top bit of the code, replies to them the
/// same code without it; the device list is 5, an import 3.
pub proof fn lemma_op_codes_pair()
    ensures
        Op::OpRepDevlist.code() == 5,
        Op::OpReqDevlist.code() == 0x8000 + Op::OpRepDevlist.code(),
        Op::OpRepImport.code() == 3,
        Op::OpReqImport.code() == 0x8000 + Op::OpRepImport.code(),
{
}

/// The numbers of the unlink reasons, speeds and endpoint types; every other
/// number is no reason and no speed in particular.
pub proof fn lemma_small_codes(v: u8)
    ensures
        UnlinkReason::of_code(v) == UnlinkReason::Timeout <==> v == 1,
        UnlinkReason::of_code(v) == UnlinkReason::DeviceUnplugged <==> v == 2,
        UnlinkReason::of_code(v) == UnlinkReason::UserRevoked <==> v == 3,
        UnlinkReason::of_code(v) == UnlinkReason::SenderShutdown <==> v == 4,
        UnlinkReason::of_code(v) == UnlinkReason::Unspecified <==> v == 0 || v > 4,
        UnlinkReason::Unspecified.code() == 0,
        UsbipSpeed::of_code(v) == UsbipSpeed::Low <==> v == 1,
        UsbipSpeed::of_code(v) == UsbipSpeed::Full <==> v == 2,
        UsbipSpeed::of_code(v) == UsbipSpeed::High <==> v == 3,
        UsbipSpeed::of_code(v) == UsbipSpeed::Wireless <==> v == 4,
        UsbipSpeed::of_code(v) == UsbipSpeed::Super <==> v == 5,
        UsbipSpeed::of_code(v) == UsbipSpeed::SuperPlus <==> v == 6,
        UsbipSpeed::of_code(v) == UsbipSpeed::Unknown <==> v == 0 || v > 6,
        UsbipSpeed::Unknown.code() == 0,
        EndpointType::Control.code() == 0,
        EndpointType::Isochronous.code() == 1,
        EndpointType::Bulk.code() == 2,
        EndpointType::Interrupt.code() == 3,
{
}

/// A frame is the import id as one big-endian word and then the packet, as it
/// is.
pub proof fn lemma_usbip_frame_layout(import_id: u32, raw: Seq<u8>)
    ensures
        usbip_frame_bytes(import_id, raw).len() == 4 + raw.len(),
        be32_at(usbip_frame_bytes(import_id, raw), 0) == import_id,
        forall|i: int|
            0 <= i < raw.len() ==> #[trigger] usbip_frame_bytes(import_id, raw)[4 + i] == raw[i],
{
    lemma_usbip_frame_round_trip(import_id, raw, raw);
}

} // verus!
