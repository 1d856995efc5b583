//! Userspace URB pump against a fake device.
//!
//! The pump answers USB/IP packets as a sender does:
//!
//! ```text
//!   loop {
//!     read one packet
//!     CMD_SUBMIT => if OUT: take the transfer buffer; dispatch to the device;
//!                   write RET_SUBMIT (+ IN body)
//!     CMD_UNLINK => write RET_UNLINK
//!     other      => give up
//!   }
//! ```

use vstd::prelude::*;

use crate::bytes::{be32_at, push_bytes};
use crate::desktop::usbip::{
    device_descriptor_bytes, lemma_device_descriptor_layout, synth_device_descriptor,
};
use crate::protocol::envelope::{
    envelope_bytes, lemma_envelope_layout, lemma_envelope_round_trip, parse_outcome, Channel, Envelope, EnvelopeError,
    MAX_PAYLOAD,
};
use crate::protocol::usbip::{
    lemma_cmd_submit_layout, lemma_cmd_submit_round_trip, lemma_cmd_unlink_layout, lemma_cmd_unlink_round_trip, lemma_ret_submit_layout,
    lemma_ret_submit_round_trip, lemma_ret_unlink_layout, lemma_ret_unlink_round_trip,
    lemma_usbip_frame_layout, peek_op, peek_urb_op, usbip_frame_bytes, CmdSubmit, CmdUnlink,
    EndpointType, RetSubmit, RetUnlink, UrbOp, UsbipError, UsbipFrame, URB_DIR_IN, URB_DIR_OUT,
    URB_HEADER_LEN,
};
use crate::text::{dec, hex, pad_front, push_dec, push_hex, push_str};

verus! {

/// Negated errno: no such device.
pub const ENODEV: i32 = -19;

/// Negated errno: operation not supported.
pub const EOPNOTSUPP: i32 = -95;

/// One endpoint advertised by the fake device. Bit 7 of `address` set is IN,
/// else OUT; the lower four bits are the endpoint number.
#[derive(Debug, Clone, Copy)]
pub struct FakeEndpoint {
    pub address: u8,
    pub xfer_type: EndpointType,
}

impl FakeEndpoint {
    /// Whether data flows from the device to the host.
    pub fn is_in(&self) -> (r: bool)
        ensures
            r == (self.address >= 0x80),
    {
        self.address >= 0x80
    }
}

/// The device the pump dispatches against: descriptors that GET_DESCRIPTOR
/// returns, and endpoints. Bulk IN returns deterministic bytes, bulk OUT
/// swallows whatever it is given.
pub struct FakeDevice {
    pub device_descriptor: Vec<u8>,
    pub config_descriptor: Vec<u8>,
    pub endpoints: Vec<FakeEndpoint>,
}

/// The first of the endpoints with the given address.
pub open spec fn first_endpoint(eps: Seq<FakeEndpoint>, address: u8) -> Option<FakeEndpoint>
    decreases eps.len(),
{
    if eps.len() == 0 {
        None
    } else if eps[0].address == address {
        Some(eps[0])
    } else {
        first_endpoint(eps.skip(1), address)
    }
}

/// The bytes of `synth_config_descriptor`: a configuration, one interface, a
/// bulk IN endpoint 1 and a bulk OUT endpoint 2.
pub open spec fn config_descriptor_bytes(class: u8, subclass: u8, proto: u8) -> Seq<u8> {
    seq![0x09u8, 0x02, 0x20, 0x00, 0x01, 0x01, 0x00, 0x80, 0x32] + seq![
        0x09u8,
        0x04,
        0x00,
        0x00,
        0x02,
        class,
        subclass,
        proto,
        0x00,
    ] + seq![0x07u8, 0x05, 0x81, 0x02, 0x40, 0x00, 0x00] + seq![
        0x07u8,
        0x05,
        0x02,
        0x02,
        0x40,
        0x00,
        0x00,
    ]
}

/// A 32-byte "config + interface + 2 endpoints" descriptor, laid out as USB
/// 2.0 sections 9.6.3, 9.6.5 and 9.6.6 have it.
pub fn synth_config_descriptor(class: u8, subclass: u8, proto: u8) -> (v: Vec<u8>)
    ensures
        v@ == config_descriptor_bytes(class, subclass, proto),
        v@.len() == 32,
        v@[2] + 0x100 * v@[3] == v@.len(),
        v@[14] == class && v@[15] == subclass && v@[16] == proto,
{
    let mut v: Vec<u8> = Vec::new();
    // Configuration: wTotalLength 32, one interface, bus-powered, 100 mA.
    push_bytes(&mut v, &[0x09, 0x02, 0x20, 0x00, 0x01, 0x01, 0x00, 0x80, 0x32]);
    // Interface 0 with two endpoints.
    push_bytes(&mut v, &[0x09, 0x04, 0x00, 0x00, 0x02, class, subclass, proto, 0x00]);
    // Bulk IN endpoint 1, 64-byte packets.
    push_bytes(&mut v, &[0x07, 0x05, 0x81, 0x02, 0x40, 0x00, 0x00]);
    // Bulk OUT endpoint 2, 64-byte packets.
    push_bytes(&mut v, &[0x07, 0x05, 0x02, 0x02, 0x40, 0x00, 0x00]);
    assert(v@ =~= config_descriptor_bytes(class, subclass, proto));
    v
}

impl FakeDevice {
    /// Whether this is the one-LUN mass-storage device with the given ids.
    pub open spec fn is_mass_storage(self, vendor: u16, product: u16) -> bool {
        &&& self.device_descriptor@ == device_descriptor_bytes(vendor, product, 0x08)
        &&& self.config_descriptor@ == config_descriptor_bytes(0x08, 0x06, 0x50)
        &&& self.endpoints@ == seq![
            FakeEndpoint { address: 0x81, xfer_type: EndpointType::Bulk },
            FakeEndpoint { address: 0x02, xfer_type: EndpointType::Bulk },
        ]
    }

    /// A mass-storage (class 0x08) device with one bulk IN and one bulk OUT
    /// endpoint.
    pub fn mass_storage(vendor: u16, product: u16) -> (d: FakeDevice)
        ensures
            d.is_mass_storage(vendor, product),
    {
        let device_descriptor = vstd::slice::slice_to_vec(
            &synth_device_descriptor(vendor, product, 0x08),
        );
        let mut endpoints: Vec<FakeEndpoint> = Vec::new();
        endpoints.push(FakeEndpoint { address: 0x81, xfer_type: EndpointType::Bulk });
        endpoints.push(FakeEndpoint { address: 0x02, xfer_type: EndpointType::Bulk });
        let d = FakeDevice {
            device_descriptor,
            config_descriptor: synth_config_descriptor(0x08, 0x06, 0x50),
            endpoints,
        };
        assert(d.endpoints@ =~= seq![
            FakeEndpoint { address: 0x81, xfer_type: EndpointType::Bulk },
            FakeEndpoint { address: 0x02, xfer_type: EndpointType::Bulk },
        ]);
        d
    }

    /// The first endpoint with the given address.
    pub fn endpoint(&self, address: u8) -> (r: Option<&FakeEndpoint>)
        ensures
            match r {
                Some(e) => first_endpoint(self.endpoints@, address) == Some(*e),
                None => first_endpoint(self.endpoints@, address) is None,
            },
            match r {
                Some(e) => exists|k: int|
                    0 <= k < self.endpoints@.len() && *e == #[trigger] self.endpoints@[k]
                        && e.address == address && forall|j: int|
                        0 <= j < k ==> (#[trigger] self.endpoints@[j]).address != address,
                None => forall|j: int|
                    0 <= j < self.endpoints@.len() ==> (#[trigger] self.endpoints@[j]).address
                        != address,
            },
    {
        let mut i: usize = 0;
        assert(self.endpoints@.skip(0) =~= self.endpoints@);
        while i < self.endpoints.len()
            invariant
                i <= self.endpoints@.len(),
                first_endpoint(self.endpoints@, address) == first_endpoint(
                    self.endpoints@.skip(i as int),
                    address,
                ),
                forall|j: int| 0 <= j < i ==> (#[trigger] self.endpoints@[j]).address != address,
            decreases self.endpoints@.len() - i,
        {
            if self.endpoints[i].address == address {
                return Some(&self.endpoints[i]);
            }
            assert(self.endpoints@.skip(i as int).skip(1) =~= self.endpoints@.skip(i + 1));
            i += 1;
        }
        None
    }
}

/// Model of a `SubmitResult`.
pub struct Outcome {
    pub status: i32,
    pub actual_length: u32,
    pub data: Seq<u8>,
}

/// Outcome of a single submit. `status` is 0 or a negated errno; `data` is
/// what an IN transfer returns, empty otherwise.
pub struct SubmitResult {
    pub status: i32,
    pub actual_length: u32,
    pub data: Vec<u8>,
}

impl View for SubmitResult {
    type V = Outcome;

    open spec fn view(&self) -> Outcome {
        Outcome { status: self.status, actual_length: self.actual_length, data: self.data@ }
    }
}

/// A transfer that ended with `status` and returned no data.
pub open spec fn no_data(status: i32, actual_length: u32) -> Outcome {
    Outcome { status, actual_length, data: Seq::empty() }
}

/// The first `limit` bytes of a descriptor, or all of it if it is shorter.
pub open spec fn descriptor_outcome(descriptor: Seq<u8>, limit: int) -> Outcome {
    let n = if limit < descriptor.len() {
        limit
    } else {
        descriptor.len() as int
    };
    Outcome { status: 0, actual_length: n as u32, data: descriptor.take(n) }
}

/// What a control transfer gives.
///
/// A device-to-host GET_DESCRIPTOR (request 6) returns the device (type 1) or
/// configuration (type 2) descriptor, cut to the requested length, and is not
/// supported for other types. Other device-to-host requests succeed empty. A
/// host-to-device request succeeds and counts the bytes it carried.
pub open spec fn control_outcome(device: FakeDevice, cmd: CmdSubmit, out_len: nat) -> Outcome {
    let setup = cmd.setup@;
    let wanted = setup[6] + 0x100 * setup[7];
    if setup[0] >= 0x80 {
        if setup[1] != 0x06 {
            no_data(0, 0)
        } else if setup[3] == 0x01 {
            descriptor_outcome(device.device_descriptor@, wanted)
        } else if setup[3] == 0x02 {
            descriptor_outcome(device.config_descriptor@, wanted)
        } else {
            no_data(EOPNOTSUPP, 0)
        }
    } else if cmd.transfer_buffer_length == 0 {
        no_data(0, 0)
    } else {
        no_data(0, (out_len % 0x1_0000_0000) as u32)
    }
}

/// What a bulk or interrupt transfer gives: on an IN endpoint as many bytes as
/// were asked for, byte `i` being `seqnum + i` modulo 256; on an OUT endpoint
/// the count of the bytes it carried.
pub open spec fn bulk_outcome(cmd: CmdSubmit, ep: FakeEndpoint, out_len: nat) -> Outcome {
    if ep.address >= 0x80 {
        Outcome {
            status: 0,
            actual_length: cmd.transfer_buffer_length,
            data: Seq::new(
                cmd.transfer_buffer_length as nat,
                |i: int| ((cmd.seqnum + i) % 0x100) as u8,
            ),
        }
    } else {
        no_data(0, (out_len % 0x1_0000_0000) as u32)
    }
}

/// The endpoint address that a submit names.
pub open spec fn target_address(cmd: CmdSubmit) -> u8 {
    ((if cmd.direction == URB_DIR_IN {
        0x80int
    } else {
        0
    }) + cmd.ep % 16) as u8
}

/// What a submit gives: endpoint 0 is control; an unknown endpoint is -ENODEV;
/// isochronous transfers are not supported.
pub open spec fn submit_outcome(device: FakeDevice, cmd: CmdSubmit, out_len: nat) -> Outcome {
    if cmd.ep == 0 {
        control_outcome(device, cmd, out_len)
    } else {
        match first_endpoint(device.endpoints@, target_address(cmd)) {
            None => no_data(ENODEV, 0),
            Some(ep) => match ep.xfer_type {
                EndpointType::Bulk => bulk_outcome(cmd, ep, out_len),
                EndpointType::Interrupt => bulk_outcome(cmd, ep, out_len),
                EndpointType::Isochronous => no_data(EOPNOTSUPP, 0),
                EndpointType::Control => control_outcome(device, cmd, out_len),
            },
        }
    }
}

fn empty_result(status: i32) -> (r: SubmitResult)
    ensures
        r@ == no_data(status, 0),
{
    let r = SubmitResult { status, actual_length: 0, data: Vec::new() };
    assert(r@.data =~= Seq::empty());
    r
}

fn accepted(out_body: &[u8]) -> (r: SubmitResult)
    ensures
        r@ == no_data(0, (out_body@.len() % 0x1_0000_0000) as u32),
{
    let actual_length: u32 = (out_body.len() as u64 % 0x1_0000_0000) as u32;
    let r = SubmitResult { status: 0, actual_length, data: Vec::new() };
    assert(r@.data =~= Seq::empty());
    r
}

/// Executes a control transfer on the device.
pub fn execute_control(device: &FakeDevice, cmd: &CmdSubmit, out_body: &[u8]) -> (r: SubmitResult)
    ensures
        r@ == control_outcome(*device, *cmd, out_body@.len()),
        is_descriptor_request(*cmd) ==> {
            let d = if cmd.setup@[3] == 1 {
                device.device_descriptor@
            } else {
                device.config_descriptor@
            };
            let wanted = cmd.setup@[6] + 0x100 * cmd.setup@[7];
            &&& r.status == 0
            &&& r.actual_length == if wanted < d.len() {
                wanted
            } else {
                d.len() as int
            }
            &&& r.data@.len() == r.actual_length
            &&& forall|i: int| 0 <= i < r.data@.len() ==> #[trigger] r.data@[i] == d[i]
        },
{
    if cmd.setup[0] >= 0x80 {
        if cmd.setup[1] != 0x06 {
            return empty_result(0);
        }
        let descriptor = if cmd.setup[3] == 0x01 {
            &device.device_descriptor
        } else if cmd.setup[3] == 0x02 {
            &device.config_descriptor
        } else {
            return empty_result(EOPNOTSUPP);
        };
        let limit: usize = cmd.setup[6] as usize + 0x100 * cmd.setup[7] as usize;
        let take: usize = if limit < descriptor.len() {
            limit
        } else {
            descriptor.len()
        };
        let data = vstd::slice::slice_to_vec(
            vstd::slice::slice_subrange(descriptor.as_slice(), 0, take),
        );
        assert(data@ =~= descriptor@.take(take as int));
        return SubmitResult { status: 0, actual_length: take as u32, data };
    }
    if cmd.transfer_buffer_length == 0 {
        return empty_result(0);
    }
    accepted(out_body)
}

/// Executes a bulk or interrupt transfer on the endpoint.
pub fn execute_bulk(cmd: &CmdSubmit, ep: &FakeEndpoint, out_body: &[u8]) -> (r: SubmitResult)
    ensures
        r@ == bulk_outcome(*cmd, *ep, out_body@.len()),
        r.status == 0,
        ep.address >= 0x80 ==> r.actual_length == cmd.transfer_buffer_length && r.data@.len()
            == r.actual_length && forall|i: int|
            0 <= i < r.data@.len() ==> #[trigger] r.data@[i] == (cmd.seqnum + i) % 0x100,
        ep.address < 0x80 ==> r.data@.len() == 0 && (out_body@.len() <= u32::MAX ==> r.actual_length
            == out_body@.len()),
{
    if ep.is_in() {
        let len: u32 = cmd.transfer_buffer_length;
        let mut data: Vec<u8> = Vec::new();
        let mut i: u32 = 0;
        while i < len
            invariant
                i <= len,
                data@ == Seq::new(i as nat, |j: int| ((cmd.seqnum + j) % 0x100) as u8),
            decreases len - i,
        {
            data.push(((cmd.seqnum % 0x100 + i % 0x100) % 0x100) as u8);
            i += 1;
            assert(data@ =~= Seq::new(i as nat, |j: int| ((cmd.seqnum + j) % 0x100) as u8));
        }
        SubmitResult { status: 0, actual_length: len, data }
    } else {
        accepted(out_body)
    }
}

/// Runs a submit against the device.
pub fn dispatch_submit(device: &FakeDevice, cmd: &CmdSubmit, out_body: &[u8]) -> (r: SubmitResult)
    ensures
        r@ == submit_outcome(*device, *cmd, out_body@.len()),
        cmd.ep == 0 && is_descriptor_request(*cmd) ==> {
            let d = if cmd.setup@[3] == 1 {
                device.device_descriptor@
            } else {
                device.config_descriptor@
            };
            let wanted = cmd.setup@[6] + 0x100 * cmd.setup@[7];
            &&& r.status == 0
            &&& r.actual_length == if wanted < d.len() {
                wanted
            } else {
                d.len() as int
            }
            &&& r.data@.len() == r.actual_length
            &&& forall|i: int| 0 <= i < r.data@.len() ==> #[trigger] r.data@[i] == d[i]
        },
{
    proof {
        if cmd.ep == 0 && is_descriptor_request(*cmd) {
            lemma_descriptor_is_prefix(*device, *cmd, out_body@.len());
        }
    }
    if cmd.is_control() {
        return execute_control(device, cmd, out_body);
    }
    let side: u8 = if cmd.direction == URB_DIR_IN {
        0x80
    } else {
        0
    };
    let address: u8 = side + (cmd.ep % 16) as u8;
    match device.endpoint(address) {
        None => empty_result(ENODEV),
        Some(ep) => match ep.xfer_type {
            EndpointType::Bulk => execute_bulk(cmd, ep, out_body),
            EndpointType::Interrupt => execute_bulk(cmd, ep, out_body),
            EndpointType::Isochronous => empty_result(EOPNOTSUPP),
            EndpointType::Control => execute_control(device, cmd, out_body),
        },
    }
}

/// What the pump has counted.
#[derive(Debug, Clone, Copy, PartialEq, Eq, Structural)]
pub struct PumpStats {
    pub submits_seen: u32,
    pub submits_ok: u32,
    pub control_in_bytes: u32,
    pub bulk_in_bytes: u32,
    pub bulk_out_bytes: u32,
    pub unlinks_seen: u32,
    pub unsupported: u32,
}

impl PumpStats {
    /// All counters at zero.
    pub open spec fn zero() -> PumpStats {
        PumpStats {
            submits_seen: 0,
            submits_ok: 0,
            control_in_bytes: 0,
            bulk_in_bytes: 0,
            bulk_out_bytes: 0,
            unlinks_seen: 0,
            unsupported: 0,
        }
    }
}

impl Default for PumpStats {
    fn default() -> (s: PumpStats)
        ensures
            s == PumpStats::zero(),
            s.submits_seen == 0 && s.submits_ok == 0 && s.control_in_bytes == 0 && s.bulk_in_bytes
                == 0 && s.bulk_out_bytes == 0 && s.unlinks_seen == 0 && s.unsupported == 0,
    {
        PumpStats {
            submits_seen: 0,
            submits_ok: 0,
            control_in_bytes: 0,
            bulk_in_bytes: 0,
            bulk_out_bytes: 0,
            unlinks_seen: 0,
            unsupported: 0,
        }
    }
}

/// Why the pump gives up on a session.
#[derive(Debug, PartialEq, Eq)]
pub enum PumpError {
    /// The payload is no USB/IP frame.
    Frame(UsbipError),
    /// The frame belongs to another import.
    WrongImport { found: u32, session: u32 },
    /// The packet is shorter than a URB header.
    Short(usize),
    /// The command word is not a URB op.
    UnknownOp([u8; 4]),
    /// An OUT submit carries fewer bytes than it announces.
    Truncated { got: usize, want: usize },
    /// A return op came in; only the pump sends those.
    UnexpectedReturn(UrbOp),
    /// The reply does not fit into an envelope.
    Reply(EnvelopeError),
    /// A counter would exceed 32 bits.
    CounterOverflow,
}

/// Four bytes as `[0a, 0b, 0c, 0d]`.
pub open spec fn four_bytes_text(b: Seq<u8>) -> Seq<char> {
    "["@ + pad_front(hex(b[0] as nat), 2, '0') + ", "@ + pad_front(hex(b[1] as nat), 2, '0') + ", "@
        + pad_front(hex(b[2] as nat), 2, '0') + ", "@ + pad_front(hex(b[3] as nat), 2, '0') + "]"@
}

impl UrbOp {
    /// The name of the op.
    pub open spec fn name(self) -> Seq<char> {
        match self {
            UrbOp::CmdSubmit => "CmdSubmit"@,
            UrbOp::CmdUnlink => "CmdUnlink"@,
            UrbOp::RetSubmit => "RetSubmit"@,
            UrbOp::RetUnlink => "RetUnlink"@,
        }
    }

    /// The name of the op.
    pub fn name_str(self) -> (s: &'static str)
        ensures
            s@ == self.name(),
    {
        match self {
            UrbOp::CmdSubmit => "CmdSubmit",
            UrbOp::CmdUnlink => "CmdUnlink",
            UrbOp::RetSubmit => "RetSubmit",
            UrbOp::RetUnlink => "RetUnlink",
        }
    }
}

impl PumpError {
    /// The human-readable text of the error.
    pub open spec fn text(self) -> Seq<char> {
        match self {
            PumpError::Frame(e) => "parsing UsbipFrame: "@ + e.text(),
            PumpError::WrongImport { found, session } => "frame import_id 0x"@ + hex(found as nat)
                + " != session import_id 0x"@ + hex(session as nat),
            PumpError::Short(n) => "URB packet too short: "@ + dec(n as nat) + " < 48"@,
            PumpError::UnknownOp(b) => "unknown URB op: "@ + four_bytes_text(b@),
            PumpError::Truncated { got, want } => "CMD_SUBMIT OUT truncated: got "@ + dec(
                got as nat,
            ) + " bytes after header, need "@ + dec(want as nat),
            PumpError::UnexpectedReturn(op) => "unexpected inbound RET op "@ + op.name(),
            PumpError::Reply(e) => "encoding envelope: "@ + e.text(),
            PumpError::CounterOverflow => "pump counter overflow"@,
        }
    }

    /// The human-readable text of the error.
    pub fn message(&self) -> (s: String)
        ensures
            s@ == self.text(),
    {
        let mut s = String::new();
        match self {
            PumpError::Frame(e) => {
                push_str(&mut s, "parsing UsbipFrame: ");
                push_str(&mut s, e.message().as_str());
            },
            PumpError::WrongImport { found, session } => {
                push_str(&mut s, "frame import_id 0x");
                push_hex(&mut s, *found as u64, 0);
                push_str(&mut s, " != session import_id 0x");
                push_hex(&mut s, *session as u64, 0);
                assert(pad_front(hex(*found as nat), 0, '0') =~= hex(*found as nat));
                assert(pad_front(hex(*session as nat), 0, '0') =~= hex(*session as nat));
            },
            PumpError::Short(n) => {
                push_str(&mut s, "URB packet too short: ");
                push_dec(&mut s, *n as u64);
                push_str(&mut s, " < 48");
            },
            PumpError::UnknownOp(b) => {
                push_str(&mut s, "unknown URB op: ");
                push_str(&mut s, "[");
                push_hex(&mut s, b[0] as u64, 2);
                push_str(&mut s, ", ");
                push_hex(&mut s, b[1] as u64, 2);
                push_str(&mut s, ", ");
                push_hex(&mut s, b[2] as u64, 2);
                push_str(&mut s, ", ");
                push_hex(&mut s, b[3] as u64, 2);
                push_str(&mut s, "]");
            },
            PumpError::Truncated { got, want } => {
                push_str(&mut s, "CMD_SUBMIT OUT truncated: got ");
                push_dec(&mut s, *got as u64);
                push_str(&mut s, " bytes after header, need ");
                push_dec(&mut s, *want as u64);
            },
            PumpError::UnexpectedReturn(op) => {
                push_str(&mut s, "unexpected inbound RET op ");
                push_str(&mut s, op.name_str());
            },
            PumpError::Reply(e) => {
                push_str(&mut s, "encoding envelope: ");
                push_str(&mut s, e.message().as_str());
            },
            PumpError::CounterOverflow => {
                push_str(&mut s, "pump counter overflow");
            },
        }
        assert(s@ =~= self.text());
        s
    }
}

/// `counter + by`, if it fits.
pub open spec fn bumped(counter: u32, by: int) -> Option<u32> {
    if counter + by > u32::MAX {
        None
    } else {
        Some((counter + by) as u32)
    }
}

/// The counters after a submit with the given outcome, if they all fit. A
/// successful transfer counts its bytes as control IN, bulk IN or OUT.
pub open spec fn count_submit(stats: PumpStats, cmd: CmdSubmit, o: Outcome) -> Option<PumpStats> {
    let ok = o.status == 0;
    let control_in = ok && cmd.ep == 0 && cmd.direction == URB_DIR_IN;
    let bulk_in = ok && cmd.ep != 0 && cmd.direction == URB_DIR_IN;
    let out = ok && cmd.direction != URB_DIR_IN;
    let n = o.actual_length as int;
    match (
        bumped(stats.submits_seen, 1),
        bumped(stats.submits_ok, if ok { 1 } else { 0 }),
        bumped(stats.control_in_bytes, if control_in { n } else { 0 }),
        bumped(stats.bulk_in_bytes, if bulk_in { n } else { 0 }),
        bumped(stats.bulk_out_bytes, if out { n } else { 0 }),
        bumped(stats.unsupported, if o.status == EOPNOTSUPP { 1 } else { 0 }),
    ) {
        (
            Some(submits_seen),
            Some(submits_ok),
            Some(control_in_bytes),
            Some(bulk_in_bytes),
            Some(bulk_out_bytes),
            Some(unsupported),
        ) => Some(
            PumpStats {
                submits_seen,
                submits_ok,
                control_in_bytes,
                bulk_in_bytes,
                bulk_out_bytes,
                unsupported,
                ..stats
            },
        ),
        _ => None,
    }
}

fn bump(counter: u32, by: u32) -> (r: Option<u32>)
    ensures
        r == bumped(counter, by as int),
{
    if by > u32::MAX - counter {
        None
    } else {
        Some(counter + by)
    }
}

fn record_submit(stats: &PumpStats, cmd: &CmdSubmit, res: &SubmitResult) -> (r: Option<PumpStats>)
    ensures
        r == count_submit(*stats, *cmd, res@),
{
    let ok = res.status == 0;
    let is_in = cmd.direction == URB_DIR_IN;
    let n: u32 = res.actual_length;
    let submits_seen: u32 = match bump(stats.submits_seen, 1) {
        Some(v) => v,
        None => return None,
    };
    let submits_ok: u32 = match bump(stats.submits_ok, if ok { 1 } else { 0 }) {
        Some(v) => v,
        None => return None,
    };
    let control_in_bytes: u32 = match bump(
        stats.control_in_bytes,
        if ok && cmd.is_control() && is_in { n } else { 0 },
    ) {
        Some(v) => v,
        None => return None,
    };
    let bulk_in_bytes: u32 = match bump(
        stats.bulk_in_bytes,
        if ok && !cmd.is_control() && is_in { n } else { 0 },
    ) {
        Some(v) => v,
        None => return None,
    };
    let bulk_out_bytes: u32 = match bump(
        stats.bulk_out_bytes,
        if ok && !is_in { n } else { 0 },
    ) {
        Some(v) => v,
        None => return None,
    };
    let unsupported: u32 = match bump(
        stats.unsupported,
        if res.status == EOPNOTSUPP { 1 } else { 0 },
    ) {
        Some(v) => v,
        None => return None,
    };
    Some(
        PumpStats {
            submits_seen,
            submits_ok,
            control_in_bytes,
            bulk_in_bytes,
            bulk_out_bytes,
            unlinks_seen: stats.unlinks_seen,
            unsupported,
        },
    )
}

/// The header that answers a submit: same sequence number, direction and
/// endpoint, and the outcome's status and length.
pub open spec fn ret_submit(cmd: CmdSubmit, o: Outcome) -> RetSubmit {
    RetSubmit {
        seqnum: cmd.seqnum,
        devid: 0,
        direction: cmd.direction,
        ep: cmd.ep,
        status: o.status,
        actual_length: o.actual_length,
        start_frame: 0,
        number_of_packets: 0,
        error_count: 0,
    }
}

/// The header that answers an unlink.
pub open spec fn ret_unlink(u: CmdUnlink, status: i32) -> RetUnlink {
    RetUnlink { seqnum: u.seqnum, devid: 0, direction: u.direction, ep: u.ep, status }
}

/// The envelope that carries a packet for an import, if it fits into one.
pub open spec fn usbip_envelope(import_id: u32, raw: Seq<u8>) -> Result<Seq<u8>, EnvelopeError> {
    let payload = usbip_frame_bytes(import_id, raw);
    if payload.len() > MAX_PAYLOAD {
        Err(EnvelopeError::TooLarge(payload.len() as usize))
    } else {
        Ok(envelope_bytes(Channel::Usbip, payload))
    }
}

/// Appends the envelope that carries a packet for an import.
pub fn push_usbip_envelope(out: &mut Vec<u8>, import_id: u32, raw: &[u8]) -> (r: Result<
    (),
    EnvelopeError,
>)
    ensures
        match r {
            Ok(_) => usbip_envelope(import_id, raw@) is Ok && final(out)@ == old(out)@
                + usbip_envelope(import_id, raw@)->Ok_0,
            Err(e) => usbip_envelope(import_id, raw@) == Err::<Seq<u8>, EnvelopeError>(e)
                && final(out)@ == old(out)@,
        },
{
    let frame = UsbipFrame::new(import_id, raw).encode();
    match Envelope::new(Channel::Usbip, frame.as_slice()).encode_into(out) {
        Ok(_) => Ok(()),
        Err(e) => Err(e),
    }
}

/// The transfer buffer of an OUT submit, or why there is none. Anything but
/// an OUT submit has an empty one.
pub open spec fn out_body(cmd: CmdSubmit, raw: Seq<u8>) -> Result<Seq<u8>, PumpError> {
    let want = cmd.transfer_buffer_length as int;
    if cmd.direction != URB_DIR_OUT {
        Ok(Seq::empty())
    } else if raw.len() < URB_HEADER_LEN + want {
        Err(
            PumpError::Truncated {
                got: (raw.len() - URB_HEADER_LEN) as usize,
                want: want as usize,
            },
        )
    } else {
        Ok(raw.subrange(URB_HEADER_LEN as int, URB_HEADER_LEN + want))
    }
}

/// The outcome of one packet: the counters behind it, and the bytes that are
/// sent back or why the session ends. A packet is counted before it is
/// answered, so one that ends the session may have been counted too; one that
/// would overflow a counter leaves them all alone.
pub open spec fn packet_outcome(
    import_id: u32,
    device: FakeDevice,
    raw: Seq<u8>,
    stats: PumpStats,
) -> (PumpStats, Result<Seq<u8>, PumpError>) {
    if raw.len() < URB_HEADER_LEN {
        (stats, Err(PumpError::Short(raw.len() as usize)))
    } else {
        match peek_op(raw) {
            None => (stats, Err(PumpError::UnknownOp([raw[0], raw[1], raw[2], raw[3]]))),
            Some(UrbOp::CmdSubmit) => submit_packet_outcome(import_id, device, raw, stats),
            Some(UrbOp::CmdUnlink) => match bumped(stats.unlinks_seen, 1) {
                None => (stats, Err(PumpError::CounterOverflow)),
                Some(unlinks_seen) => (
                    PumpStats { unlinks_seen, ..stats },
                    replied(
                        usbip_envelope(import_id, ret_unlink(CmdUnlink::at(raw), 0).bytes()),
                    ),
                ),
            },
            Some(op) => (stats, Err(PumpError::UnexpectedReturn(op))),
        }
    }
}

/// The outcome of a submit: it is seen, then its transfer buffer is read, then
/// it is dispatched and counted, then it is answered.
pub open spec fn submit_packet_outcome(
    import_id: u32,
    device: FakeDevice,
    raw: Seq<u8>,
    stats: PumpStats,
) -> (PumpStats, Result<Seq<u8>, PumpError>) {
    let cmd = CmdSubmit::at(raw);
    match bumped(stats.submits_seen, 1) {
        None => (stats, Err(PumpError::CounterOverflow)),
        Some(submits_seen) => match out_body(cmd, raw) {
            Err(e) => (PumpStats { submits_seen, ..stats }, Err(e)),
            Ok(body) => {
                let o = submit_outcome(device, cmd, body.len());
                match count_submit(stats, cmd, o) {
                    None => (stats, Err(PumpError::CounterOverflow)),
                    Some(counted) => (
                        counted,
                        replied(usbip_envelope(import_id, ret_submit(cmd, o).bytes() + o.data)),
                    ),
                }
            },
        },
    }
}

/// What becomes of an answer: it is sent, or it is too large to be.
pub open spec fn replied(envelope: Result<Seq<u8>, EnvelopeError>) -> Result<Seq<u8>, PumpError> {
    match envelope {
        Ok(bytes) => Ok(bytes),
        Err(e) => Err(PumpError::Reply(e)),
    }
}

/// Answers a submit with the outcome.
pub fn send_ret_submit(
    out: &mut Vec<u8>,
    import_id: u32,
    cmd: &CmdSubmit,
    res: &SubmitResult,
) -> (r: Result<(), EnvelopeError>)
    ensures
        match r {
            Ok(_) => usbip_envelope(import_id, ret_submit(*cmd, res@).bytes() + res@.data) is Ok
                && final(out)@ == old(out)@ + usbip_envelope(
                import_id,
                ret_submit(*cmd, res@).bytes() + res@.data,
            )->Ok_0,
            Err(e) => usbip_envelope(import_id, ret_submit(*cmd, res@).bytes() + res@.data) == Err::<
                Seq<u8>,
                EnvelopeError,
            >(e) && final(out)@ == old(out)@,
        },
{
    let ret = RetSubmit {
        seqnum: cmd.seqnum,
        devid: 0,
        direction: cmd.direction,
        ep: cmd.ep,
        status: res.status,
        actual_length: res.actual_length,
        start_frame: 0,
        number_of_packets: 0,
        error_count: 0,
    };
    let mut payload = vstd::slice::slice_to_vec(&ret.encode());
    push_bytes(&mut payload, res.data.as_slice());
    push_usbip_envelope(out, import_id, payload.as_slice())
}

/// Answers an unlink.
pub fn send_ret_unlink(out: &mut Vec<u8>, import_id: u32, u: &CmdUnlink, status: i32) -> (r: Result<
    (),
    EnvelopeError,
>)
    ensures
        r is Ok,
        usbip_envelope(import_id, ret_unlink(*u, status).bytes()) is Ok,
        final(out)@ == old(out)@ + usbip_envelope(import_id, ret_unlink(*u, status).bytes())->Ok_0,
{
    let ret = RetUnlink { seqnum: u.seqnum, devid: 0, direction: u.direction, ep: u.ep, status };
    push_usbip_envelope(out, import_id, &ret.encode())
}

/// One URB transaction: reads the header and, for OUT, the transfer buffer,
/// dispatches, and appends the answer to `out`.
pub fn handle_urb_packet(
    out: &mut Vec<u8>,
    import_id: u32,
    device: &FakeDevice,
    raw: &[u8],
    stats: &mut PumpStats,
) -> (r: Result<(), PumpError>)
    ensures
        ({
            let (counted, sent) = packet_outcome(import_id, *device, raw@, *old(stats));
            &&& *final(stats) == counted
            &&& match r {
                Ok(_) => sent is Ok && final(out)@ == old(out)@ + sent->Ok_0,
                Err(e) => sent == Err::<Seq<u8>, PumpError>(e) && final(out)@ == old(out)@,
            }
        }),
{
    if raw.len() < URB_HEADER_LEN {
        return Err(PumpError::Short(raw.len()));
    }
    let op = match peek_urb_op(raw) {
        Some(op) => op,
        None => {
            let first: [u8; 4] = [raw[0], raw[1], raw[2], raw[3]];
            return Err(PumpError::UnknownOp(first));
        },
    };
    match op {
        UrbOp::CmdSubmit => {
            let cmd = match CmdSubmit::parse(raw) {
                Ok(cmd) => cmd,
                Err(_) => return Err(PumpError::Short(raw.len())),
            };
            let submits_seen: u32 = match bump(stats.submits_seen, 1) {
                Some(v) => v,
                None => return Err(PumpError::CounterOverflow),
            };
            let res = if cmd.direction == URB_DIR_OUT {
                let want: usize = cmd.transfer_buffer_length as usize;
                let got: usize = raw.len() - URB_HEADER_LEN;
                if got < want {
                    stats.submits_seen = submits_seen;
                    return Err(PumpError::Truncated { got, want });
                }
                let body = vstd::slice::slice_subrange(raw, URB_HEADER_LEN, URB_HEADER_LEN + want);
                dispatch_submit(device, &cmd, body)
            } else {
                dispatch_submit(device, &cmd, &[])
            };
            let counted = match record_submit(stats, &cmd, &res) {
                Some(counted) => counted,
                None => return Err(PumpError::CounterOverflow),
            };
            *stats = counted;
            match send_ret_submit(out, import_id, &cmd, &res) {
                Ok(_) => Ok(()),
                Err(e) => Err(PumpError::Reply(e)),
            }
        },
        UrbOp::CmdUnlink => {
            let u = match CmdUnlink::parse(raw) {
                Ok(u) => u,
                Err(_) => return Err(PumpError::Short(raw.len())),
            };
            let unlinks_seen: u32 = match bump(stats.unlinks_seen, 1) {
                Some(v) => v,
                None => return Err(PumpError::CounterOverflow),
            };
            stats.unlinks_seen = unlinks_seen;
            match send_ret_unlink(out, import_id, &u, 0) {
                Ok(_) => Ok(()),
                Err(e) => Err(PumpError::Reply(e)),
            }
        },
        UrbOp::RetSubmit => Err(PumpError::UnexpectedReturn(op)),
        UrbOp::RetUnlink => Err(PumpError::UnexpectedReturn(op)),
    }
}

/// The outcome of one envelope: only USB/IP packets of this import count;
/// other channels are ignored.
pub open spec fn envelope_outcome(
    import_id: u32,
    device: FakeDevice,
    channel: Channel,
    payload: Seq<u8>,
    stats: PumpStats,
) -> (PumpStats, Result<Seq<u8>, PumpError>) {
    if channel != Channel::Usbip {
        (stats, Ok(Seq::empty()))
    } else if payload.len() < 4 {
        (stats, Err(PumpError::Frame(UsbipError::Short(payload.len() as usize))))
    } else if be32_at(payload, 0) != import_id {
        (stats, Err(PumpError::WrongImport { found: be32_at(payload, 0), session: import_id }))
    } else {
        packet_outcome(import_id, device, payload.skip(4), stats)
    }
}

/// Handles one envelope and appends what it is answered to `out`.
pub fn pump_envelope(
    out: &mut Vec<u8>,
    import_id: u32,
    device: &FakeDevice,
    channel: Channel,
    payload: &[u8],
    stats: &mut PumpStats,
) -> (r: Result<(), PumpError>)
    ensures
        ({
            let (counted, sent) = envelope_outcome(
                import_id,
                *device,
                channel,
                payload@,
                *old(stats),
            );
            &&& *final(stats) == counted
            &&& match r {
                Ok(_) => sent is Ok && final(out)@ == old(out)@ + sent->Ok_0,
                Err(e) => sent == Err::<Seq<u8>, PumpError>(e) && final(out)@ == old(out)@,
            }
        }),
{
    match channel {
        Channel::Usbip => {
            let frame = match UsbipFrame::parse(payload) {
                Ok(f) => f,
                Err(e) => return Err(PumpError::Frame(e)),
            };
            if frame.import_id != import_id {
                return Err(
                    PumpError::WrongImport { found: frame.import_id, session: import_id },
                );
            }
            handle_urb_packet(out, import_id, device, frame.raw, stats)
        },
        _ => {
            assert(out@ =~= old(out)@ + Seq::<u8>::empty());
            Ok(())
        },
    }
}

/// A whole session over the inbound bytes: the final counters or why it ended
/// early, and everything that was sent. The session ends quietly when the
/// bytes run out or are no envelope.
pub open spec fn pump_run(
    import_id: u32,
    device: FakeDevice,
    input: Seq<u8>,
    stats: PumpStats,
) -> (Result<PumpStats, PumpError>, Seq<u8>)
    decreases input.len(),
{
    match parse_outcome(input) {
        Ok(Some((channel, payload, n))) => match envelope_outcome(
            import_id,
            device,
            channel,
            payload,
            stats,
        ) {
            (_, Err(e)) => (Err(e), Seq::empty()),
            (counted, Ok(sent)) => {
                let (r, later) = pump_run(import_id, device, input.skip(n as int), counted);
                (r, sent + later)
            },
        },
        _ => (Ok(stats), Seq::empty()),
    }
}

/// Runs the pump over the inbound bytes of a session, until they end or an
/// error comes up, and appends everything it answers to `out`.
#[verifier::spinoff_prover]
#[verifier::rlimit(40)]
pub fn run_pump(out: &mut Vec<u8>, input: &[u8], import_id: u32, device: &FakeDevice) -> (r: Result<
    PumpStats,
    PumpError,
>)
    ensures
        (r, final(out)@) == ({
            let (end, sent) = pump_run(import_id, *device, input@, PumpStats::zero());
            (end, old(out)@ + sent)
        }),
{
    let mut stats = PumpStats::default();
    let mut at: usize = 0;
    let ghost whole = pump_run(import_id, *device, input@, PumpStats::zero());
    assert(input@.skip(0) =~= input@);
    assert(out@ + whole.1 =~= old(out)@ + whole.1);
    loop
        invariant
            at <= input@.len(),
            whole == pump_run(import_id, *device, input@, PumpStats::zero()),
            ({
                let (end, later) = pump_run(import_id, *device, input@.skip(at as int), stats);
                whole.0 == end && out@ + later == old(out)@ + whole.1
            }),
        decreases input@.len() - at,
    {
        let rest = vstd::slice::slice_subrange(input, at, input.len());
        assert(rest@ =~= input@.skip(at as int));
        let ghost before = out@;
        let ghost later = pump_run(import_id, *device, rest@, stats).1;
        match Envelope::parse(rest) {
            Ok(Some((env, n))) => {
                match pump_envelope(
                    out,
                    import_id,
                    device,
                    env.channel,
                    env.payload,
                    &mut stats,
                ) {
                    Ok(_) => {
                        assert(rest@.skip(n as int) =~= input@.skip(at + n));
                        let ghost tail = pump_run(import_id, *device, rest@.skip(n as int), stats).1;
                        assert(out@ + tail =~= before + later);
                    },
                    Err(e) => {
                        assert(out@ =~= old(out)@ + whole.1);
                        return Err(e);
                    },
                }
                at += n;
            },
            _ => {
                assert(out@ =~= old(out)@ + whole.1);
                return Ok(stats);
            },
        }
    }
}

/// A submit to an endpoint that the device does not have fails with -ENODEV, one
/// to an isochronous endpoint with -EOPNOTSUPP; neither moves any data.
pub proof fn lemma_missing_and_unsupported(device: FakeDevice, cmd: CmdSubmit, len: nat)
    requires
        cmd.ep != 0,
    ensures
        first_endpoint(device.endpoints@, target_address(cmd)) is None ==> submit_outcome(
            device,
            cmd,
            len,
        ) == no_data(-19i32, 0),
        first_endpoint(device.endpoints@, target_address(cmd)) matches Some(ep) ==> ep.xfer_type
            == EndpointType::Isochronous ==> submit_outcome(device, cmd, len) == no_data(-95i32, 0),
{
}

/// A submit from the host's side (any direction but OUT) always returns
/// exactly as many bytes as its answer announces.
pub proof fn lemma_in_length_matches(device: FakeDevice, cmd: CmdSubmit)
    requires
        cmd.direction != URB_DIR_OUT,
    ensures
        submit_outcome(device, cmd, 0).data.len() == submit_outcome(device, cmd, 0).actual_length,
{
}

/// An OUT submit on an endpoint other than 0 that is not a control endpoint
/// returns no bytes, and when it succeeds it has taken all it carried.
pub proof fn lemma_out_takes_all(device: FakeDevice, cmd: CmdSubmit, ep: FakeEndpoint, len: nat)
    requires
        cmd.direction == URB_DIR_OUT,
        cmd.ep != 0,
        len <= u32::MAX,
        first_endpoint(device.endpoints@, target_address(cmd)) == Some(ep),
        ep.xfer_type != EndpointType::Control,
    ensures
        submit_outcome(device, cmd, len).data.len() == 0,
        submit_outcome(device, cmd, len).status == 0 ==> submit_outcome(
            device,
            cmd,
            len,
        ).actual_length == len,
{
    lemma_first_endpoint_address(device.endpoints@, target_address(cmd));
}

/// An endpoint that was found has the address it was looked up by.
pub proof fn lemma_first_endpoint_address(eps: Seq<FakeEndpoint>, address: u8)
    ensures
        first_endpoint(eps, address) matches Some(ep) ==> ep.address == address,
    decreases eps.len(),
{
    if eps.len() > 0 && eps[0].address != address {
        lemma_first_endpoint_address(eps.skip(1), address);
    }
}

/// Every submit that the pump accepts is answered by exactly one envelope: a
/// return header with the submit's sequence number, direction and endpoint,
/// carrying the outcome's status, length and data.
pub proof fn lemma_submit_is_answered(
    import_id: u32,
    device: FakeDevice,
    cmd: CmdSubmit,
    body: Seq<u8>,
    stats: PumpStats,
)
    requires
        packet_outcome(import_id, device, cmd.bytes() + body, stats).1 is Ok,
    ensures
        ({
            let (counted, reply) = packet_outcome(import_id, device, cmd.bytes() + body, stats);
            let sent = reply->Ok_0;
            let taken = if cmd.direction == URB_DIR_OUT {
                cmd.transfer_buffer_length as nat
            } else {
                0
            };
            let o = submit_outcome(device, cmd, taken);
            let raw = ret_submit(cmd, o).bytes() + o.data;
            &&& counted.submits_seen == stats.submits_seen + 1
            &&& parse_outcome(sent) == Ok::<Option<(Channel, Seq<u8>, nat)>, EnvelopeError>(
                Some((Channel::Usbip, usbip_frame_bytes(import_id, raw), sent.len())),
            )
            &&& peek_op(raw) == Some(UrbOp::RetSubmit)
            &&& RetSubmit::at(raw) == ret_submit(cmd, o)
            &&& raw.skip(48) == o.data
        }),
{
    lemma_cmd_submit_round_trip(cmd, body);
    let raw_in = cmd.bytes() + body;
    let b = out_body(cmd, raw_in)->Ok_0;
    let taken = if cmd.direction == URB_DIR_OUT {
        cmd.transfer_buffer_length as nat
    } else {
        0
    };
    assert(b.len() == taken);
    let o = submit_outcome(device, cmd, taken);
    lemma_ret_submit_round_trip(ret_submit(cmd, o), o.data);
    let raw = ret_submit(cmd, o).bytes() + o.data;
    assert(raw.skip(48) =~= o.data);
    lemma_envelope_round_trip(Channel::Usbip, usbip_frame_bytes(import_id, raw), Seq::empty());
    let sent = envelope_bytes(Channel::Usbip, usbip_frame_bytes(import_id, raw));
    assert(sent + Seq::<u8>::empty() =~= sent);
}

/// Every unlink is acknowledged with status 0 and its own sequence number.
pub proof fn lemma_unlink_is_acknowledged(
    import_id: u32,
    device: FakeDevice,
    u: CmdUnlink,
    stats: PumpStats,
)
    requires
        stats.unlinks_seen < u32::MAX,
    ensures
        packet_outcome(import_id, device, u.bytes(), stats) == (
            (PumpStats { unlinks_seen: (stats.unlinks_seen + 1) as u32, ..stats }),
            Ok::<Seq<u8>, PumpError>(
                envelope_bytes(
                    Channel::Usbip,
                    usbip_frame_bytes(import_id, ret_unlink(u, 0).bytes()),
                ),
            ),
        ),
        RetUnlink::at(ret_unlink(u, 0).bytes()).status == 0,
        RetUnlink::at(ret_unlink(u, 0).bytes()).seqnum == u.seqnum,
{
    lemma_cmd_unlink_round_trip(u, Seq::empty());
    assert(u.bytes() + Seq::<u8>::empty() =~= u.bytes());
    lemma_ret_unlink_round_trip(ret_unlink(u, 0), Seq::empty());
    assert(ret_unlink(u, 0).bytes() + Seq::<u8>::empty() =~= ret_unlink(u, 0).bytes());
}

/// The counters stay consistent: a packet, answered or not, never makes the
/// successful and the unsupported submits outnumber those seen, and no counter
/// goes down.
pub proof fn lemma_counters_consistent(
    import_id: u32,
    device: FakeDevice,
    raw: Seq<u8>,
    stats: PumpStats,
)
    requires
        stats.submits_ok + stats.unsupported <= stats.submits_seen,
    ensures
        ({
            let after = packet_outcome(import_id, device, raw, stats).0;
            &&& after.submits_ok + after.unsupported <= after.submits_seen
            &&& stats.submits_seen <= after.submits_seen
            &&& stats.submits_ok <= after.submits_ok
            &&& stats.control_in_bytes <= after.control_in_bytes
            &&& stats.bulk_in_bytes <= after.bulk_in_bytes
            &&& stats.bulk_out_bytes <= after.bulk_out_bytes
            &&& stats.unlinks_seen <= after.unlinks_seen
            &&& stats.unsupported <= after.unsupported
        }),
{
}

/// A session over an envelope and what follows it is that envelope's step and
/// then the session over the rest.
pub proof fn lemma_pump_run_step(
    import_id: u32,
    device: FakeDevice,
    channel: Channel,
    payload: Seq<u8>,
    rest: Seq<u8>,
    stats: PumpStats,
)
    requires
        payload.len() <= MAX_PAYLOAD,
    ensures
        pump_run(import_id, device, envelope_bytes(channel, payload) + rest, stats)
            == match envelope_outcome(import_id, device, channel, payload, stats) {
            (_, Err(e)) => (Err(e), Seq::<u8>::empty()),
            (counted, Ok(sent)) => {
                let (r, later) = pump_run(import_id, device, rest, counted);
                (r, sent + later)
            },
        },
{
    lemma_envelope_round_trip(channel, payload, rest);
    let b = envelope_bytes(channel, payload);
    assert((b + rest).skip(b.len() as int) =~= rest);
}

/// Whether a control transfer asks the device for its device or configuration
/// descriptor: device to host, request 6, type 1 or 2.
pub open spec fn is_descriptor_request(cmd: CmdSubmit) -> bool {
    cmd.setup@[0] >= 0x80 && cmd.setup@[1] == 6 && (cmd.setup@[3] == 1 || cmd.setup@[3] == 2)
}

/// A request for a descriptor succeeds with a prefix of just that descriptor, as
/// long as was asked for or the whole of it.
pub proof fn lemma_descriptor_is_prefix(device: FakeDevice, cmd: CmdSubmit, out_len: nat)
    requires
        cmd.ep == 0,
        cmd.setup@[0] >= 0x80,
        cmd.setup@[1] == 6,
        cmd.setup@[3] == 1 || cmd.setup@[3] == 2,
    ensures
        ({
            let o = submit_outcome(device, cmd, out_len);
            let d = if cmd.setup@[3] == 1 {
                device.device_descriptor@
            } else {
                device.config_descriptor@
            };
            let wanted = cmd.setup@[6] + 0x100 * cmd.setup@[7];
            &&& o.status == 0
            &&& o.actual_length == if wanted < d.len() {
                wanted
            } else {
                d.len() as int
            }
            &&& o.data.len() == o.actual_length
            &&& forall|i: int| 0 <= i < o.data.len() ==> #[trigger] o.data[i] == d[i]
        }),
{
}

/// What other control transfers give: a descriptor of another type is not
/// supported, any other read succeeds empty, and a write succeeds and has taken
/// the bytes it carried, or none where it announced none.
pub proof fn lemma_other_control_transfers(device: FakeDevice, cmd: CmdSubmit, out_len: nat)
    requires
        cmd.ep == 0,
        out_len <= u32::MAX,
    ensures
        ({
            let o = submit_outcome(device, cmd, out_len);
            let read = cmd.setup@[0] >= 0x80;
            let fetch = cmd.setup@[1] == 6;
            &&& read && fetch && cmd.setup@[3] != 1 && cmd.setup@[3] != 2 ==> o.status == -95
                && o.actual_length == 0 && o.data.len() == 0
            &&& read && !fetch ==> o.status == 0 && o.actual_length == 0 && o.data.len() == 0
            &&& !read ==> o.status == 0 && o.data.len() == 0 && o.actual_length == if cmd.transfer_buffer_length
                == 0 {
                0
            } else {
                out_len
            }
        }),
{
}

/// A transfer to an endpoint other than 0 goes to the first endpoint of the
/// device with that number and direction. A bulk or interrupt read returns as
/// many bytes as were asked for, counting up from the sequence number; a write
/// has taken all it carried.
pub proof fn lemma_endpoint_transfers(device: FakeDevice, cmd: CmdSubmit, out_len: nat, k: int)
    requires
        cmd.ep != 0,
        out_len <= u32::MAX,
        0 <= k < device.endpoints@.len(),
        device.endpoints@[k].address == (if cmd.direction == 1 {
            0x80int
        } else {
            0
        }) + cmd.ep % 16,
        forall|j: int|
            0 <= j < k ==> (#[trigger] device.endpoints@[j]).address != device.endpoints@[k].address,
    ensures
        ({
            let o = submit_outcome(device, cmd, out_len);
            let kind = device.endpoints@[k].xfer_type;
            let data_kind = kind == EndpointType::Bulk || kind == EndpointType::Interrupt;
            &&& kind == EndpointType::Isochronous ==> o.status == -95 && o.actual_length == 0
                && o.data.len() == 0
            &&& data_kind ==> o.status == 0
            &&& data_kind && cmd.direction == 1 ==> o.actual_length == cmd.transfer_buffer_length
                && o.data.len() == o.actual_length && forall|i: int|
                0 <= i < o.data.len() ==> #[trigger] o.data[i] == (cmd.seqnum + i) % 0x100
            &&& data_kind && cmd.direction != 1 ==> o.actual_length == out_len && o.data.len() == 0
        }),
{
    lemma_first_endpoint_at(device.endpoints@, device.endpoints@[k].address, k);
    assert(target_address(cmd) == device.endpoints@[k].address);
}

/// A transfer to an endpoint that the device does not have fails with -19.
pub proof fn lemma_endpoint_missing(device: FakeDevice, cmd: CmdSubmit, out_len: nat)
    requires
        cmd.ep != 0,
        forall|j: int|
            0 <= j < device.endpoints@.len() ==> (#[trigger] device.endpoints@[j]).address != (
            if cmd.direction == 1 {
                0x80int
            } else {
                0
            }) + cmd.ep % 16,
    ensures
        submit_outcome(device, cmd, out_len).status == -19,
        submit_outcome(device, cmd, out_len).actual_length == 0,
        submit_outcome(device, cmd, out_len).data.len() == 0,
{
    lemma_no_endpoint_at(device.endpoints@, target_address(cmd));
}

proof fn lemma_first_endpoint_at(eps: Seq<FakeEndpoint>, address: u8, k: int)
    requires
        0 <= k < eps.len(),
        eps[k].address == address,
        forall|j: int| 0 <= j < k ==> (#[trigger] eps[j]).address != address,
    ensures
        first_endpoint(eps, address) == Some(eps[k]),
    decreases k,
{
    if k > 0 {
        let rest = eps.skip(1);
        assert(eps[0].address != address);
        assert forall|j: int| 0 <= j < k - 1 implies (#[trigger] rest[j]).address != address by {
            assert(rest[j] == eps[j + 1]);
        }
        lemma_first_endpoint_at(rest, address, k - 1);
    }
}

proof fn lemma_no_endpoint_at(eps: Seq<FakeEndpoint>, address: u8)
    requires
        forall|j: int| 0 <= j < eps.len() ==> (#[trigger] eps[j]).address != address,
    ensures
        first_endpoint(eps, address) is None,
    decreases eps.len(),
{
    if eps.len() > 0 {
        let rest = eps.skip(1);
        assert(eps[0].address != address);
        assert forall|j: int| 0 <= j < rest.len() implies (#[trigger] rest[j]).address
            != address by {
            assert(rest[j] == eps[j + 1]);
        }
        lemma_no_endpoint_at(rest, address);
    }
}

/// The mass-storage device tells of itself what it is: its device descriptor
/// has its ids and class 8, and its configuration descriptor has its own
/// total length, one SCSI bulk-only interface, and one endpoint descriptor per
/// endpoint, with that endpoint's address and transfer type.
pub proof fn lemma_mass_storage_describes_itself(d: FakeDevice, vendor: u16, product: u16)
    requires
        d.is_mass_storage(vendor, product),
    ensures
        d.device_descriptor@.len() == 18,
        d.device_descriptor@[0] == 18,
        d.device_descriptor@[1] == 1,
        d.device_descriptor@[4] == 8,
        d.device_descriptor@[8] + 0x100 * d.device_descriptor@[9] == vendor,
        d.device_descriptor@[10] + 0x100 * d.device_descriptor@[11] == product,
        ({
            let c = d.config_descriptor@;
            &&& c.len() == 32
            &&& c[0] == 9 && c[1] == 2
            &&& c[2] + 0x100 * c[3] == c.len()
            &&& c[4] == 1 && c[5] == 1 && c[6] == 0
            &&& c[7] == 0x80 && c[8] == 50
            &&& c[9] == 9 && c[10] == 4
            &&& c[11] == 0 && c[12] == 0
            &&& c[13] == d.endpoints@.len()
            &&& c[14] == 8 && c[15] == 6 && c[16] == 0x50 && c[17] == 0
            &&& forall|k: int|
                0 <= k < d.endpoints@.len() ==> {
                    &&& c[18 + 7 * k] == 7
                    &&& c[19 + 7 * k] == 5
                    &&& c[20 + 7 * k] == (#[trigger] d.endpoints@[k]).address
                    &&& c[21 + 7 * k] == d.endpoints@[k].xfer_type.code()
                    &&& c[22 + 7 * k] + 0x100 * c[23 + 7 * k] == 64
                    &&& c[24 + 7 * k] == 0
                }
        }),
        d.endpoints@.len() == 2,
        d.endpoints@[0].address == 0x81,
        d.endpoints@[1].address == 2,
        forall|k: int|
            0 <= k < 2 ==> (#[trigger] d.endpoints@[k]).xfer_type == EndpointType::Bulk,
{
    lemma_device_descriptor_layout(vendor, product, 0x08);
}

/// A word of something that stands inside something else.
pub proof fn lemma_inner_word(outer: Seq<u8>, inner: Seq<u8>, off: int, k: int)
    requires
        forall|i: int| 0 <= i < inner.len() ==> #[trigger] outer[off + i] == inner[i],
        0 <= k,
        k + 4 <= inner.len(),
    ensures
        be32_at(outer, off + k) == be32_at(inner, k),
{
    assert(outer[off + k] == inner[k]);
    assert(outer[off + (k + 1)] == inner[k + 1]);
    assert(outer[off + (k + 2)] == inner[k + 2]);
    assert(outer[off + (k + 3)] == inner[k + 3]);
}

/// Where the parts of a packet's envelope stand: the import id in its third word,
/// the packet behind it.
pub proof fn lemma_packet_in_envelope(import_id: u32, raw: Seq<u8>, bytes: Seq<u8>)
    requires
        usbip_envelope(import_id, raw) == Ok::<Seq<u8>, EnvelopeError>(bytes),
    ensures
        bytes.len() == 12 + raw.len(),
        bytes[3] == 2,
        be32_at(bytes, 8) == import_id,
        forall|i: int| 0 <= i < raw.len() ==> #[trigger] bytes[12 + i] == raw[i],
        forall|k: int|
            0 <= k && k + 4 <= raw.len() ==> #[trigger] be32_at(bytes, 12 + k) == be32_at(raw, k),
{
    let frame = usbip_frame_bytes(import_id, raw);
    lemma_usbip_frame_layout(import_id, raw);
    lemma_envelope_layout(Channel::Usbip, frame);
    assert forall|i: int| 0 <= i < frame.len() implies #[trigger] bytes[8 + i] == frame[i] by {}
    lemma_inner_word(bytes, frame, 8, 0);
    assert forall|i: int| 0 <= i < raw.len() implies #[trigger] bytes[12 + i] == raw[i] by {
        assert(bytes[8 + (4 + i)] == frame[4 + i]);
    }
    assert forall|k: int| 0 <= k && k + 4 <= raw.len() implies #[trigger] be32_at(bytes, 12 + k)
        == be32_at(raw, k) by {
        lemma_inner_word(bytes, raw, 12, k);
    }
}

/// The bytes that answer a submit: one envelope on the USB/IP channel for the
/// same import, with a return header that has the submit's own sequence
/// number, direction and endpoint and the outcome's status and length, and then
/// the outcome's data.
pub proof fn lemma_submit_reply_bytes(
    import_id: u32,
    device: FakeDevice,
    raw: Seq<u8>,
    stats: PumpStats,
)
    requires
        raw.len() >= 48,
        be32_at(raw, 0) == 1,
        packet_outcome(import_id, device, raw, stats).1 is Ok,
    ensures
        ({
            let sent = packet_outcome(import_id, device, raw, stats).1->Ok_0;
            let carried = if be32_at(raw, 12) == 0 {
                be32_at(raw, 24) as nat
            } else {
                0
            };
            let o = submit_outcome(device, CmdSubmit::at(raw), carried);
            &&& sent.len() == 60 + o.data.len()
            &&& sent[3] == 2
            &&& be32_at(sent, 8) == import_id
            &&& be32_at(sent, 12) == 3
            &&& be32_at(sent, 16) == be32_at(raw, 4)
            &&& be32_at(sent, 20) == 0
            &&& be32_at(sent, 24) == be32_at(raw, 12)
            &&& be32_at(sent, 28) == be32_at(raw, 16)
            &&& be32_at(sent, 32) == if o.status < 0 {
                o.status + 0x1_0000_0000
            } else {
                o.status as int
            }
            &&& be32_at(sent, 36) == o.actual_length
            &&& forall|i: int| 40 <= i < 60 ==> #[trigger] sent[i] == 0
            &&& forall|i: int| 0 <= i < o.data.len() ==> #[trigger] sent[60 + i] == o.data[i]
        }),
{
    let sent = packet_outcome(import_id, device, raw, stats).1->Ok_0;
    let cmd = CmdSubmit::at(raw);
    lemma_cmd_submit_layout(cmd, raw);
    let body = out_body(cmd, raw)->Ok_0;
    let o = submit_outcome(device, cmd, body.len());
    let ret = ret_submit(cmd, o);
    let reply = ret.bytes() + o.data;
    lemma_ret_submit_layout(ret, reply);
    lemma_packet_in_envelope(import_id, reply, sent);
    assert forall|i: int| 0 <= i < 48 implies #[trigger] reply[0 + i] == ret.bytes()[i] by {}
    lemma_inner_word(reply, ret.bytes(), 0, 0);
    lemma_inner_word(reply, ret.bytes(), 0, 4);
    lemma_inner_word(reply, ret.bytes(), 0, 8);
    lemma_inner_word(reply, ret.bytes(), 0, 12);
    lemma_inner_word(reply, ret.bytes(), 0, 16);
    lemma_inner_word(reply, ret.bytes(), 0, 20);
    lemma_inner_word(reply, ret.bytes(), 0, 24);
    lemma_inner_word(reply, ret.bytes(), 0, 28);
    lemma_inner_word(reply, ret.bytes(), 0, 32);
    lemma_inner_word(reply, ret.bytes(), 0, 36);
    assert(be32_at(sent, 12int + 0int) == be32_at(reply, 0));
    assert(be32_at(sent, 12int + 4int) == be32_at(reply, 4));
    assert(be32_at(sent, 12int + 8int) == be32_at(reply, 8));
    assert(be32_at(sent, 12int + 12int) == be32_at(reply, 12));
    assert(be32_at(sent, 12int + 16int) == be32_at(reply, 16));
    assert(be32_at(sent, 12int + 20int) == be32_at(reply, 20));
    assert(be32_at(sent, 12int + 24int) == be32_at(reply, 24));
    assert(be32_at(sent, 12int + 28int) == be32_at(reply, 28));
    assert(be32_at(sent, 12int + 32int) == be32_at(reply, 32));
    assert(be32_at(sent, 12int + 36int) == be32_at(reply, 36));
    assert forall|i: int| 40 <= i < 60 implies #[trigger] sent[i] == 0 by {
        assert(sent[12 + (i - 12)] == reply[i - 12]);
        lemma_zero_words(ret.bytes());
        assert(reply[i - 12] == ret.bytes()[i - 12]);
    }
    assert forall|i: int| 0 <= i < o.data.len() implies #[trigger] sent[60 + i] == o.data[i] by {
        assert(sent[12 + (48 + i)] == reply[48 + i]);
    }
}

/// Words that are zero have zero bytes.
proof fn lemma_zero_words(b: Seq<u8>)
    requires
        b.len() == 48,
        be32_at(b, 28) == 0,
        be32_at(b, 32) == 0,
        be32_at(b, 36) == 0,
        forall|i: int| 40 <= i < 48 ==> #[trigger] b[i] == 0,
    ensures
        forall|i: int| 28 <= i < 48 ==> #[trigger] b[i] == 0,
{
    assert forall|i: int| 28 <= i < 48 implies #[trigger] b[i] == 0 by {
        if i < 40 {
            let k = i / 4 * 4;
            assert(k == 28 || k == 32 || k == 36);
            assert(b[k] == 0 && b[k + 1] == 0 && b[k + 2] == 0 && b[k + 3] == 0);
        }
    }
}

/// The bytes that answer an unlink: one envelope with a return header that has
/// the unlink's own sequence number, direction and endpoint, status 0 and
/// nothing else.
pub proof fn lemma_unlink_reply_bytes(
    import_id: u32,
    device: FakeDevice,
    raw: Seq<u8>,
    stats: PumpStats,
)
    requires
        raw.len() >= 48,
        be32_at(raw, 0) == 2,
        stats.unlinks_seen < u32::MAX,
    ensures
        ({
            let (after, reply) = packet_outcome(import_id, device, raw, stats);
            let sent = reply->Ok_0;
            &&& reply is Ok
            &&& sent.len() == 60
            &&& sent[3] == 2
            &&& be32_at(sent, 8) == import_id
            &&& be32_at(sent, 12) == 4
            &&& be32_at(sent, 16) == be32_at(raw, 4)
            &&& be32_at(sent, 20) == 0
            &&& be32_at(sent, 24) == be32_at(raw, 12)
            &&& be32_at(sent, 28) == be32_at(raw, 16)
            &&& be32_at(sent, 32) == 0
            &&& forall|i: int| 36 <= i < 60 ==> #[trigger] sent[i] == 0
            &&& after == (PumpStats { unlinks_seen: (stats.unlinks_seen + 1) as u32, ..stats })
        }),
{
    let sent = packet_outcome(import_id, device, raw, stats).1->Ok_0;
    let u = CmdUnlink::at(raw);
    lemma_cmd_unlink_layout(u, raw);
    let ret = ret_unlink(u, 0);
    let reply = ret.bytes();
    lemma_ret_unlink_layout(ret, reply);
    lemma_packet_in_envelope(import_id, reply, sent);
    assert(be32_at(sent, 12int + 0int) == be32_at(reply, 0));
    assert(be32_at(sent, 12int + 4int) == be32_at(reply, 4));
    assert(be32_at(sent, 12int + 8int) == be32_at(reply, 8));
    assert(be32_at(sent, 12int + 12int) == be32_at(reply, 12));
    assert(be32_at(sent, 12int + 16int) == be32_at(reply, 16));
    assert(be32_at(sent, 12int + 20int) == be32_at(reply, 20));
    assert forall|i: int| 36 <= i < 60 implies #[trigger] sent[i] == 0 by {
        assert(sent[12 + (i - 12)] == reply[i - 12]);
    }
}

/// How a submit is counted: it is seen; where it succeeded, it is counted as such
/// and its length goes to just one of the byte counters, by direction and
/// endpoint; where it is not supported, that is counted; any other failure is
/// not.
pub proof fn lemma_submit_is_counted(
    import_id: u32,
    device: FakeDevice,
    raw: Seq<u8>,
    stats: PumpStats,
)
    requires
        raw.len() >= 48,
        be32_at(raw, 0) == 1,
        packet_outcome(import_id, device, raw, stats).1 is Ok,
    ensures
        ({
            let after = packet_outcome(import_id, device, raw, stats).0;
            let carried = if be32_at(raw, 12) == 0 {
                be32_at(raw, 24) as nat
            } else {
                0
            };
            let o = submit_outcome(device, CmdSubmit::at(raw), carried);
            let ok = o.status == 0;
            let is_in = be32_at(raw, 12) == 1;
            let control = be32_at(raw, 16) == 0;
            &&& after.submits_seen == stats.submits_seen + 1
            &&& after.unlinks_seen == stats.unlinks_seen
            &&& after.submits_ok == stats.submits_ok + if ok {
                1int
            } else {
                0
            }
            &&& after.unsupported == stats.unsupported + if o.status == -95 {
                1int
            } else {
                0
            }
            &&& after.control_in_bytes == stats.control_in_bytes + if ok && is_in && control {
                o.actual_length as int
            } else {
                0
            }
            &&& after.bulk_in_bytes == stats.bulk_in_bytes + if ok && is_in && !control {
                o.actual_length as int
            } else {
                0
            }
            &&& after.bulk_out_bytes == stats.bulk_out_bytes + if ok && !is_in {
                o.actual_length as int
            } else {
                0
            }
        }),
{
    let cmd = CmdSubmit::at(raw);
    lemma_cmd_submit_layout(cmd, raw);
}

/// When a packet ends the session, and as what. A packet that ends it in one of
/// these ways has been counted as a submit that was seen only where its
/// transfer buffer is cut off, and in no other way.
pub proof fn lemma_packet_refusals(
    import_id: u32,
    device: FakeDevice,
    raw: Seq<u8>,
    stats: PumpStats,
)
    requires
        stats.submits_seen < u32::MAX,
        raw.len() <= usize::MAX,
    ensures
        ({
            let (after, reply) = packet_outcome(import_id, device, raw, stats);
            let op = be32_at(raw, 0);
            let cut = raw.len() >= 48 && op == 1 && be32_at(raw, 12) == 0 && raw.len() < 48
                + be32_at(raw, 24);
            &&& (reply matches Err(PumpError::Short(_))) <==> raw.len() < 48
            &&& reply matches Err(PumpError::Short(n)) ==> n == raw.len()
            &&& (reply matches Err(PumpError::UnknownOp(_))) <==> raw.len() >= 48 && !(1 <= op <= 4)
            &&& reply matches Err(PumpError::UnknownOp(first)) ==> forall|i: int|
                0 <= i < 4 ==> #[trigger] first@[i] == raw[i]
            &&& reply == Err::<Seq<u8>, PumpError>(PumpError::UnexpectedReturn(UrbOp::RetSubmit))
                <==> raw.len() >= 48 && op == 3
            &&& reply == Err::<Seq<u8>, PumpError>(PumpError::UnexpectedReturn(UrbOp::RetUnlink))
                <==> raw.len() >= 48 && op == 4
            &&& (reply matches Err(PumpError::Truncated { got: _, want: _ })) <==> cut
            &&& reply matches Err(PumpError::Truncated { got, want }) ==> got == raw.len() - 48
                && want == be32_at(raw, 24)
            &&& raw.len() < 48 || !(1 <= op <= 2) ==> after == stats
            &&& cut ==> after == (PumpStats {
                submits_seen: (stats.submits_seen + 1) as u32,
                ..stats
            })
        }),
{
    if raw.len() >= 48 {
        lemma_cmd_submit_layout(CmdSubmit::at(raw), raw);
        let first: [u8; 4] = [raw[0], raw[1], raw[2], raw[3]];
        assert(first@ =~= seq![raw[0], raw[1], raw[2], raw[3]]);
    }
}

/// Which envelopes the pump heeds: on other channels nothing is answered or
/// counted; a USB/IP payload without an import id, or with another one than the
/// session's, ends the session uncounted; with the session's own, what counts
/// is the packet behind it.
pub proof fn lemma_pump_heeds_its_import(
    import_id: u32,
    device: FakeDevice,
    channel: Channel,
    payload: Seq<u8>,
    stats: PumpStats,
)
    ensures
        channel != Channel::Usbip ==> envelope_outcome(import_id, device, channel, payload, stats)
            == (stats, Ok::<Seq<u8>, PumpError>(Seq::empty())),
        channel == Channel::Usbip && payload.len() < 4 ==> envelope_outcome(
            import_id,
            device,
            channel,
            payload,
            stats,
        ) == (
            stats,
            Err::<Seq<u8>, PumpError>(PumpError::Frame(UsbipError::Short(payload.len() as usize))),
        ),
        channel == Channel::Usbip && payload.len() >= 4 && be32_at(payload, 0) != import_id
            ==> envelope_outcome(import_id, device, channel, payload, stats) == (
            stats,
            Err::<Seq<u8>, PumpError>(
                PumpError::WrongImport { found: be32_at(payload, 0), session: import_id },
            ),
        ),
        forall|raw: Seq<u8>| #[trigger]
            usbip_frame_bytes(import_id, raw) == payload && channel == Channel::Usbip
                ==> envelope_outcome(import_id, device, channel, payload, stats) == packet_outcome(
                import_id,
                device,
                raw,
                stats,
            ),
{
    assert forall|raw: Seq<u8>| #[trigger]
        usbip_frame_bytes(import_id, raw) == payload && channel == Channel::Usbip implies
        envelope_outcome(import_id, device, channel, payload, stats) == packet_outcome(
        import_id,
        device,
        raw,
        stats,
    ) by {
        lemma_usbip_frame_layout(import_id, raw);
        assert(payload.skip(4) =~= raw);
    }
}

/// A session over bytes that are no whole envelope ends at once, with the
/// counters as they were and nothing sent.
pub proof fn lemma_pump_run_ends(
    import_id: u32,
    device: FakeDevice,
    input: Seq<u8>,
    stats: PumpStats,
)
    requires
        !(parse_outcome(input) matches Ok(Some(_))),
    ensures
        pump_run(import_id, device, input, stats) == (
            Ok::<PumpStats, PumpError>(stats),
            Seq::<u8>::empty(),
        ),
{
}

/// When a submit is answered: where its transfer buffer is all there, the answer
/// fits into an envelope and no counter would exceed 32 bits.
pub proof fn lemma_submit_succeeds(
    import_id: u32,
    device: FakeDevice,
    raw: Seq<u8>,
    stats: PumpStats,
)
    requires
        raw.len() >= 48,
        be32_at(raw, 0) == 1,
        be32_at(raw, 12) == 0 ==> raw.len() >= 48 + be32_at(raw, 24),
        ({
            let carried = if be32_at(raw, 12) == 0 {
                be32_at(raw, 24) as nat
            } else {
                0
            };
            let o = submit_outcome(device, CmdSubmit::at(raw), carried);
            &&& 52 + o.data.len() <= 0x10_0000
            &&& stats.control_in_bytes + o.actual_length <= u32::MAX
            &&& stats.bulk_in_bytes + o.actual_length <= u32::MAX
            &&& stats.bulk_out_bytes + o.actual_length <= u32::MAX
        }),
        stats.submits_seen < u32::MAX,
        stats.submits_ok < u32::MAX,
        stats.unsupported < u32::MAX,
    ensures
        packet_outcome(import_id, device, raw, stats).1 is Ok,
{
    let cmd = CmdSubmit::at(raw);
    lemma_cmd_submit_layout(cmd, raw);
    let body = out_body(cmd, raw)->Ok_0;
    let o = submit_outcome(device, cmd, body.len());
    lemma_ret_submit_layout(ret_submit(cmd, o), raw);
    lemma_usbip_frame_layout(import_id, ret_submit(cmd, o).bytes() + o.data);
}

/// A packet fits into an envelope where it and its import id have at most one
/// MiB together.
pub proof fn lemma_packets_that_fit(import_id: u32, raw: Seq<u8>)
    ensures
        usbip_envelope(import_id, raw) is Ok <==> raw.len() + 4 <= 0x10_0000,
        usbip_envelope(import_id, raw) matches Err(e) ==> e == EnvelopeError::TooLarge(
            (raw.len() + 4) as usize,
        ),
{
    lemma_usbip_frame_layout(import_id, raw);
}

/// A transfer to an endpoint of the control type is what it would be on
/// endpoint 0.
pub proof fn lemma_control_endpoints(device: FakeDevice, cmd: CmdSubmit, out_len: nat, k: int)
    requires
        cmd.ep != 0,
        0 <= k < device.endpoints@.len(),
        device.endpoints@[k].address == (if cmd.direction == 1 {
            0x80int
        } else {
            0
        }) + cmd.ep % 16,
        device.endpoints@[k].xfer_type == EndpointType::Control,
        forall|j: int|
            0 <= j < k ==> (#[trigger] device.endpoints@[j]).address != device.endpoints@[k].address,
    ensures
        submit_outcome(device, cmd, out_len) == submit_outcome(
            device,
            CmdSubmit { ep: 0, ..cmd },
            out_len,
        ),
{
    lemma_first_endpoint_at(device.endpoints@, device.endpoints@[k].address, k);
    assert(target_address(cmd) == device.endpoints@[k].address);
}

} // verus!
