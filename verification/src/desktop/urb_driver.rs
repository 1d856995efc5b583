//! Receiver-side fake vhci-hcd: issues a fixed script of CMD_SUBMITs and one
//! CMD_UNLINK over an established USB/IP session, checks each answer and
//! writes a transcript.
//!
//! The default script is
//!
//!   1. GET_DESCRIPTOR(Device, 18) on ep 0           control IN
//!   2. GET_DESCRIPTOR(Config,  9) on ep 0           control IN
//!   3. GET_DESCRIPTOR(Config, 32) on ep 0           control IN
//!   4. SET_CONFIGURATION(1)       on ep 0           control OUT (0-data)
//!   5. Bulk IN  on ep 1, 64 bytes                   bulk IN
//!   6. Bulk OUT on ep 2, 64 bytes ascending pattern bulk OUT
//!   7. Bulk IN  on ep 1, 32 bytes                   bulk IN
//!   8. CMD_UNLINK of a made-up sequence number      unlink
//!
//! with any number of further 64-byte bulk INs in front of the unlink.
//!
//! `Driver` is the state of a run. Its owner sends what `issue` returns and
//! hands every envelope that comes back to `accept`.

use vstd::prelude::*;

use crate::bytes::{be32_at, push_bytes};
use crate::desktop::urb_pump::{
    lemma_inner_word, lemma_packet_in_envelope, push_usbip_envelope, usbip_envelope,
};
use crate::protocol::envelope::{Channel, EnvelopeError};
use crate::protocol::usbip::{
    lemma_cmd_submit_layout, lemma_cmd_unlink_layout, lemma_ret_submit_layout,
    lemma_ret_unlink_layout, lemma_usbip_frame_layout, peek_op, peek_urb_op, CmdSubmit, CmdUnlink, RetSubmit, RetUnlink, UrbOp, UsbipError, UsbipFrame,
    URB_DIR_IN, URB_DIR_OUT, URB_HEADER_LEN,
};
use crate::text::{dec, push_dec, push_signed, push_str, signed_dec};

verus! {

/// One URB the driver issues, and what it expects of the answer.
#[derive(Debug, Clone)]
pub struct ScriptedUrb {
    pub label: String,
    pub seqnum: u32,
    pub ep: u32,
    pub direction: u32,
    pub setup: [u8; 8],
    pub transfer_buffer_length: u32,
    /// OUT only. Always empty for IN transfers.
    pub out_body: Vec<u8>,
    pub expected_status: i32,
    pub expected_actual_length: u32,
}

/// Model of a `ScriptedUrb`.
pub struct UrbModel {
    pub label: Seq<char>,
    pub seqnum: u32,
    pub ep: u32,
    pub direction: u32,
    pub setup: [u8; 8],
    pub transfer_buffer_length: u32,
    pub out_body: Seq<u8>,
    pub expected_status: i32,
    pub expected_actual_length: u32,
}

impl View for ScriptedUrb {
    type V = UrbModel;

    open spec fn view(&self) -> UrbModel {
        UrbModel {
            label: self.label@,
            seqnum: self.seqnum,
            ep: self.ep,
            direction: self.direction,
            setup: self.setup,
            transfer_buffer_length: self.transfer_buffer_length,
            out_body: self.out_body@,
            expected_status: self.expected_status,
            expected_actual_length: self.expected_actual_length,
        }
    }
}

/// Model of a script.
pub open spec fn script_model(script: Seq<ScriptedUrb>) -> Seq<UrbModel> {
    Seq::new(script.len(), |i: int| script[i]@)
}

/// A control IN transfer of `len` bytes that asks for a descriptor.
pub open spec fn descriptor_urb(label: Seq<char>, seqnum: u32, kind: u8, len: u8) -> UrbModel {
    UrbModel {
        label,
        seqnum,
        ep: 0,
        direction: URB_DIR_IN,
        setup: [0x80, 0x06, 0x00, kind, 0x00, 0x00, len, 0x00],
        transfer_buffer_length: len as u32,
        out_body: Seq::empty(),
        expected_status: 0,
        expected_actual_length: len as u32,
    }
}

/// A bulk IN transfer of `len` bytes on endpoint 1.
pub open spec fn bulk_in_urb(label: Seq<char>, seqnum: u32, len: u32) -> UrbModel {
    UrbModel {
        label,
        seqnum,
        ep: 1,
        direction: URB_DIR_IN,
        setup: [0, 0, 0, 0, 0, 0, 0, 0],
        transfer_buffer_length: len,
        out_body: Seq::empty(),
        expected_status: 0,
        expected_actual_length: len,
    }
}

/// SET_CONFIGURATION(1): a control OUT transfer without data.
pub open spec fn set_configuration_urb() -> UrbModel {
    UrbModel {
        label: "SET_CONFIGURATION(1)"@,
        seqnum: 4,
        ep: 0,
        direction: URB_DIR_OUT,
        setup: [0x00, 0x09, 0x01, 0x00, 0x00, 0x00, 0x00, 0x00],
        transfer_buffer_length: 0,
        out_body: Seq::empty(),
        expected_status: 0,
        expected_actual_length: 0,
    }
}

/// 64 ascending bytes to endpoint 2.
pub open spec fn bulk_out_urb() -> UrbModel {
    UrbModel {
        label: "bulk-OUT-64"@,
        seqnum: 6,
        ep: 2,
        direction: URB_DIR_OUT,
        setup: [0, 0, 0, 0, 0, 0, 0, 0],
        transfer_buffer_length: 64,
        out_body: Seq::new(64, |i: int| i as u8),
        expected_status: 0,
        expected_actual_length: 64,
    }
}

/// The seven URBs that every default script starts with.
pub open spec fn script_head() -> Seq<UrbModel> {
    seq![
        descriptor_urb("GET_DESCRIPTOR(Device,18)"@, 1, 0x01, 18),
        descriptor_urb("GET_DESCRIPTOR(Config,9)"@, 2, 0x02, 9),
        descriptor_urb("GET_DESCRIPTOR(Config,32)"@, 3, 0x02, 32),
        set_configuration_urb(),
        bulk_in_urb("bulk-IN-64"@, 5, 64),
        bulk_out_urb(),
        bulk_in_urb("bulk-IN-32"@, 7, 32),
    ]
}

/// The default script with `n` further bulk INs, numbered from 100.
pub open spec fn default_script(n: nat) -> Seq<UrbModel> {
    script_head() + Seq::new(
        n,
        |i: int| bulk_in_urb("extra-bulk-IN-"@ + dec((100 + i) as nat), (100 + i) as u32, 64),
    )
}

fn make_descriptor_urb(label: &str, seqnum: u32, kind: u8, len: u8) -> (u: ScriptedUrb)
    ensures
        u@ == descriptor_urb(label@, seqnum, kind, len),
{
    let u = ScriptedUrb {
        label: label.to_owned(),
        seqnum,
        ep: 0,
        direction: URB_DIR_IN,
        setup: [0x80, 0x06, 0x00, kind, 0x00, 0x00, len, 0x00],
        transfer_buffer_length: len as u32,
        out_body: Vec::new(),
        expected_status: 0,
        expected_actual_length: len as u32,
    };
    assert(u@.out_body =~= Seq::empty());
    u
}

fn make_bulk_in_urb(label: String, seqnum: u32, len: u32) -> (u: ScriptedUrb)
    ensures
        u@ == bulk_in_urb(label@, seqnum, len),
{
    let u = ScriptedUrb {
        label,
        seqnum,
        ep: 1,
        direction: URB_DIR_IN,
        setup: [0, 0, 0, 0, 0, 0, 0, 0],
        transfer_buffer_length: len,
        out_body: Vec::new(),
        expected_status: 0,
        expected_actual_length: len,
    };
    assert(u@.out_body =~= Seq::empty());
    u
}

fn make_set_configuration_urb() -> (u: ScriptedUrb)
    ensures
        u@ == set_configuration_urb(),
{
    let u = ScriptedUrb {
        label: "SET_CONFIGURATION(1)".to_owned(),
        seqnum: 4,
        ep: 0,
        direction: URB_DIR_OUT,
        setup: [0x00, 0x09, 0x01, 0x00, 0x00, 0x00, 0x00, 0x00],
        transfer_buffer_length: 0,
        out_body: Vec::new(),
        expected_status: 0,
        expected_actual_length: 0,
    };
    assert(u@.out_body =~= Seq::empty());
    u
}

fn make_bulk_out_urb() -> (u: ScriptedUrb)
    ensures
        u@ == bulk_out_urb(),
{
    let mut out_body: Vec<u8> = Vec::new();
    let mut i: u8 = 0;
    while i < 64
        invariant
            i <= 64,
            out_body@ == Seq::new(i as nat, |j: int| j as u8),
        decreases 64 - i,
    {
        out_body.push(i);
        i += 1;
        assert(out_body@ =~= Seq::new(i as nat, |j: int| j as u8));
    }
    let u = ScriptedUrb {
        label: "bulk-OUT-64".to_owned(),
        seqnum: 6,
        ep: 2,
        direction: URB_DIR_OUT,
        setup: [0, 0, 0, 0, 0, 0, 0, 0],
        transfer_buffer_length: 64,
        out_body,
        expected_status: 0,
        expected_actual_length: 64,
    };
    u
}

/// The default URB sequence with `n_extra_bulk_in` further bulk INs. Their
/// sequence numbers count from 100 and have to fit into 32 bits.
pub fn script_default(n_extra_bulk_in: u32, devid: u32) -> (s: Vec<ScriptedUrb>)
    requires
        n_extra_bulk_in <= u32::MAX - 99,
    ensures
        script_model(s@) == default_script(n_extra_bulk_in as nat),
{
    let mut s: Vec<ScriptedUrb> = Vec::new();
    s.push(make_descriptor_urb("GET_DESCRIPTOR(Device,18)", 1, 0x01, 18));
    s.push(make_descriptor_urb("GET_DESCRIPTOR(Config,9)", 2, 0x02, 9));
    s.push(make_descriptor_urb("GET_DESCRIPTOR(Config,32)", 3, 0x02, 32));
    s.push(make_set_configuration_urb());
    s.push(make_bulk_in_urb("bulk-IN-64".to_owned(), 5, 64));
    s.push(make_bulk_out_urb());
    s.push(make_bulk_in_urb("bulk-IN-32".to_owned(), 7, 32));
    assert(script_model(s@) =~= default_script(0));
    let mut i: u32 = 0;
    while i < n_extra_bulk_in
        invariant
            i <= n_extra_bulk_in <= u32::MAX - 99,
            script_model(s@) == default_script(i as nat),
        decreases n_extra_bulk_in - i,
    {
        let seqnum: u32 = 100 + i;
        let mut label = "extra-bulk-IN-".to_owned();
        push_dec(&mut label, seqnum as u64);
        let ghost before = s@;
        s.push(make_bulk_in_urb(label, seqnum, 64));
        assert(script_model(s@) =~= script_model(before).push(s@[s@.len() - 1]@));
        assert(default_script((i + 1) as nat) =~= default_script(i as nat).push(
            bulk_in_urb("extra-bulk-IN-"@ + dec((100 + i) as nat), (100 + i) as u32, 64),
        ));
        i += 1;
    }
    s
}

/// What the driver has counted.
#[derive(Debug, Clone, Copy, PartialEq, Eq, Structural)]
pub struct DriverStats {
    pub urbs_issued: u32,
    pub urbs_ok: u32,
    pub unlinks_issued: u32,
    pub unlinks_ok: u32,
    pub bytes_returned: u64,
}

impl DriverStats {
    /// All counters at zero.
    pub open spec fn zero() -> DriverStats {
        DriverStats {
            urbs_issued: 0,
            urbs_ok: 0,
            unlinks_issued: 0,
            unlinks_ok: 0,
            bytes_returned: 0,
        }
    }
}

impl Default for DriverStats {
    fn default() -> (s: DriverStats)
        ensures
            s == DriverStats::zero(),
            s.urbs_issued == 0 && s.urbs_ok == 0 && s.unlinks_issued == 0 && s.unlinks_ok == 0
                && s.bytes_returned == 0,
    {
        DriverStats {
            urbs_issued: 0,
            urbs_ok: 0,
            unlinks_issued: 0,
            unlinks_ok: 0,
            bytes_returned: 0,
        }
    }
}

/// Where a run of a script stands.
#[derive(Debug, Clone, Copy, PartialEq, Eq, Structural)]
pub enum Phase {
    /// The next thing to issue is the URB with this index, or the unlink when
    /// no URB has it.
    Ready(usize),
    /// The URB with this index is out; its answer is awaited.
    AwaitSubmit(usize),
    /// The unlink is out; its answer is awaited.
    AwaitUnlink,
    /// Everything was issued and answered as expected.
    Done,
}

/// Why a run of a script fails.
#[derive(Debug, PartialEq, Eq)]
pub enum DriverError {
    /// The request does not fit into an envelope.
    Request(EnvelopeError),
    /// The answer came on another channel.
    WrongChannel(Channel),
    /// The answer is no USB/IP frame.
    Frame(UsbipError),
    /// The answer belongs to another import.
    WrongImport { found: u32, session: u32 },
    /// The answer's command word is not a URB op.
    UnknownOp,
    /// The answer is of another kind than the request asks for.
    UnexpectedOp(UrbOp),
    /// The answer is shorter than a URB header.
    Short(usize),
    /// Status or length are not what the script expects.
    Mismatch { status: i32, actual_length: u32 },
    /// The answer to an IN transfer carries another number of bytes than it says.
    BodyLength { body: u32, actual_length: u32 },
    /// The unlink was refused.
    UnlinkStatus(i32),
}

/// The submit header of a scripted URB.
pub open spec fn submit_of(u: UrbModel) -> CmdSubmit {
    CmdSubmit {
        seqnum: u.seqnum,
        devid: 0x0001_0002,
        direction: u.direction,
        ep: u.ep,
        transfer_flags: 0,
        transfer_buffer_length: u.transfer_buffer_length,
        start_frame: 0,
        number_of_packets: 0,
        interval: 0,
        setup: u.setup,
    }
}

/// The unlink at the end of every script.
pub open spec fn final_unlink() -> CmdUnlink {
    CmdUnlink { seqnum: 9001, devid: 0x0001_0002, direction: URB_DIR_OUT, ep: 0, unlink_seqnum: 5 }
}

/// The line that an answered URB leaves in the transcript.
pub open spec fn urb_line(u: UrbModel, ret: RetSubmit, body: u32) -> Seq<char> {
    "sim-urb "@ + u.label + " seq="@ + dec(ret.seqnum as nat) + " ep="@ + dec(u.ep as nat)
        + " dir="@ + dec(u.direction as nat) + " status="@ + signed_dec(ret.status as int)
        + " actual_length="@ + dec(ret.actual_length as nat) + " body_bytes="@ + dec(body as nat)
        + "\n"@
}

/// The line that the answered unlink leaves in the transcript.
pub open spec fn unlink_line(ret: RetUnlink) -> Seq<char> {
    "sim-unlink seq="@ + dec(ret.seqnum as nat) + " status="@ + signed_dec(ret.status as int)
        + " target_seq="@ + dec(final_unlink().unlink_seqnum as nat) + "\n"@
}

/// The line at the end of the transcript of a successful run.
pub open spec fn summary_line(s: DriverStats) -> Seq<char> {
    "sim-summary urbs_issued="@ + dec(s.urbs_issued as nat) + " urbs_ok="@ + dec(s.urbs_ok as nat)
        + " unlinks_issued="@ + dec(s.unlinks_issued as nat) + " unlinks_ok="@ + dec(
        s.unlinks_ok as nat,
    ) + " bytes_returned="@ + dec(s.bytes_returned as nat) + "\n"@
}

/// The packet inside an answer, if it is one of the given op.
pub open spec fn answer_raw(
    import_id: Option<u32>,
    want: UrbOp,
    channel: Channel,
    payload: Seq<u8>,
) -> Result<Seq<u8>, DriverError> {
    if channel != Channel::Usbip {
        Err(DriverError::WrongChannel(channel))
    } else if payload.len() < 4 {
        Err(DriverError::Frame(UsbipError::Short(payload.len() as usize)))
    } else if import_id is Some && be32_at(payload, 0) != import_id->Some_0 {
        Err(
            DriverError::WrongImport {
                found: be32_at(payload, 0),
                session: import_id->Some_0,
            },
        )
    } else {
        match peek_op(payload.skip(4)) {
            None => Err(DriverError::UnknownOp),
            Some(op) => if op != want {
                Err(DriverError::UnexpectedOp(op))
            } else if payload.len() < 4 + URB_HEADER_LEN {
                Err(DriverError::Short((payload.len() - 4) as usize))
            } else {
                Ok(payload.skip(4))
            },
        }
    }
}

/// The number of bytes behind the header of a packet, modulo 2^32.
pub open spec fn body_count(raw: Seq<u8>) -> u32 {
    ((raw.len() - URB_HEADER_LEN) % 0x1_0000_0000) as u32
}

/// What comes of a well-formed answer to a URB: the number of bytes it
/// returned, or why it is not as expected.
pub open spec fn submit_check(u: UrbModel, ret: RetSubmit, body: u32) -> Result<u64, DriverError> {
    if ret.status != u.expected_status || ret.actual_length != u.expected_actual_length {
        Err(DriverError::Mismatch { status: ret.status, actual_length: ret.actual_length })
    } else if u.direction != URB_DIR_IN {
        Ok(0)
    } else if body != ret.actual_length {
        Err(DriverError::BodyLength { body, actual_length: ret.actual_length })
    } else {
        Ok(ret.actual_length as u64)
    }
}

/// The number of bytes that the first `k` URBs of a script are expected to
/// return: the lengths of those that read from the device.
pub open spec fn in_bytes(script: Seq<UrbModel>, k: nat) -> nat
    decreases k,
{
    if k == 0 {
        0
    } else {
        let u = script[k - 1];
        in_bytes(script, (k - 1) as nat) + if u.direction == URB_DIR_IN {
            u.expected_actual_length as nat
        } else {
            0
        }
    }
}

/// The sum fits: no length has more than 32 bits.
proof fn lemma_in_bytes_bound(script: Seq<UrbModel>, k: nat)
    ensures
        in_bytes(script, k) <= k * u32::MAX,
    decreases k,
{
    if k > 0 {
        lemma_in_bytes_bound(script, (k - 1) as nat);
    }
}

/// State of a run of a script.
#[derive(Debug, Clone, Copy)]
pub struct Driver {
    pub import_id: u32,
    pub phase: Phase,
    pub stats: DriverStats,
}

impl Driver {
    /// Whether the state can occur in a run of a script: what was counted is what
    /// the URBs so far come to.
    pub open spec fn wf(self, script: Seq<UrbModel>) -> bool {
        let len = script.len();
        &&& len <= u32::MAX
        &&& self.stats.bytes_returned == in_bytes(script, self.stats.urbs_ok as nat)
        &&& match self.phase {
            Phase::Ready(k) => k <= len && self.stats.urbs_issued == k && self.stats.urbs_ok == k
                && self.stats.unlinks_issued == 0 && self.stats.unlinks_ok == 0,
            Phase::AwaitSubmit(k) => k < len && self.stats.urbs_issued == k + 1
                && self.stats.urbs_ok == k && self.stats.unlinks_issued == 0
                && self.stats.unlinks_ok == 0,
            Phase::AwaitUnlink => self.stats.urbs_issued == len && self.stats.urbs_ok == len
                && self.stats.unlinks_issued == 1 && self.stats.unlinks_ok == 0,
            Phase::Done => self.stats.urbs_issued == len && self.stats.urbs_ok == len
                && self.stats.unlinks_issued == 1 && self.stats.unlinks_ok == 1,
        }
    }

    /// The state at the start of a run.
    pub open spec fn initial(import_id: u32) -> Driver {
        Driver { import_id, phase: Phase::Ready(0), stats: DriverStats::zero() }
    }

    /// The envelope that issues what comes next.
    pub open spec fn request(self, script: Seq<UrbModel>) -> Result<Seq<u8>, DriverError> {
        let k = self.phase->Ready_0;
        let raw = if k < script.len() {
            submit_of(script[k as int]).bytes() + script[k as int].out_body
        } else {
            final_unlink().bytes()
        };
        match usbip_envelope(self.import_id, raw) {
            Err(e) => Err(DriverError::Request(e)),
            Ok(sent) => Ok(sent),
        }
    }

    /// The state behind the issue of what comes next.
    pub open spec fn issued(self, len: nat) -> Driver {
        match self.phase {
            Phase::Ready(k) => if k < len {
                Driver {
                    phase: Phase::AwaitSubmit(k),
                    stats: DriverStats {
                        urbs_issued: (self.stats.urbs_issued + 1) as u32,
                        ..self.stats
                    },
                    ..self
                }
            } else {
                Driver {
                    phase: Phase::AwaitUnlink,
                    stats: DriverStats {
                        unlinks_issued: (self.stats.unlinks_issued + 1) as u32,
                        ..self.stats
                    },
                    ..self
                }
            },
            _ => self,
        }
    }

    /// The state behind the answer to a URB that returned `bytes` bytes.
    pub open spec fn answered(self, bytes: u64) -> Driver {
        match self.phase {
            Phase::AwaitSubmit(k) => Driver {
                phase: Phase::Ready((k + 1) as usize),
                stats: DriverStats {
                    urbs_ok: (self.stats.urbs_ok + 1) as u32,
                    bytes_returned: (self.stats.bytes_returned + bytes) as u64,
                    ..self.stats
                },
                ..self
            },
            _ => self,
        }
    }

    /// The state behind the answer to the unlink.
    pub open spec fn finished(self) -> Driver {
        Driver {
            phase: Phase::Done,
            stats: DriverStats { unlinks_ok: (self.stats.unlinks_ok + 1) as u32, ..self.stats },
            ..self
        }
    }

    /// What an envelope does to a driver that awaits one: the text it adds to
    /// the transcript, and the next state or why the run fails.
    pub open spec fn accepts(self, script: Seq<UrbModel>, channel: Channel, payload: Seq<u8>) -> (
        Seq<char>,
        Result<Driver, DriverError>,
    ) {
        match self.phase {
            Phase::AwaitSubmit(k) => match answer_raw(
                Some(self.import_id),
                UrbOp::RetSubmit,
                channel,
                payload,
            ) {
                Err(e) => (Seq::empty(), Err(e)),
                Ok(raw) => {
                    let ret = RetSubmit::at(raw);
                    (
                        urb_line(script[k as int], ret, body_count(raw)),
                        match submit_check(script[k as int], ret, body_count(raw)) {
                            Err(e) => Err(e),
                            Ok(bytes) => Ok(self.answered(bytes)),
                        },
                    )
                },
            },
            Phase::AwaitUnlink => match answer_raw(None, UrbOp::RetUnlink, channel, payload) {
                Err(e) => (Seq::empty(), Err(e)),
                Ok(raw) => {
                    let ret = RetUnlink::at(raw);
                    if ret.status == 0 {
                        (
                            unlink_line(ret) + summary_line(self.finished().stats),
                            Ok(self.finished()),
                        )
                    } else {
                        (unlink_line(ret), Err(DriverError::UnlinkStatus(ret.status)))
                    }
                },
            },
            _ => (Seq::empty(), Ok(self)),
        }
    }

    /// The start of a run for the given import.
    pub fn new(import_id: u32) -> (d: Driver)
        ensures
            d == Driver::initial(import_id),
            d.import_id == import_id && d.phase == Phase::Ready(0) && d.stats.urbs_issued == 0
                && d.stats.urbs_ok == 0 && d.stats.unlinks_issued == 0 && d.stats.unlinks_ok == 0
                && d.stats.bytes_returned == 0,
            forall|script: Seq<UrbModel>| script.len() <= u32::MAX ==> #[trigger] d.wf(script),
    {
        Driver { import_id, phase: Phase::Ready(0), stats: DriverStats::default() }
    }

    /// Issues the next URB, or the unlink behind the last one: appends the
    /// envelope to send to `out`. A request that does not fit into an envelope
    /// fails the run.
    pub fn issue(&mut self, script: &[ScriptedUrb], out: &mut Vec<u8>) -> (r: Result<
        (),
        DriverError,
    >)
        requires
            old(self).wf(script_model(script@)),
            old(self).phase is Ready,
        ensures
            final(self).wf(script_model(script@)),
            match (old(self).request(script_model(script@)), r) {
                (Ok(sent), Ok(_)) => final(out)@ == old(out)@ + sent && *final(self) == old(
                    self,
                ).issued(script@.len()),
                (Err(e), Err(f)) => e == f && final(out)@ == old(out)@ && *final(self) == *old(
                    self,
                ),
                _ => false,
            },
    {
        let k: usize = match self.phase {
            Phase::Ready(k) => k,
            _ => 0,
        };
        if k < script.len() {
            let urb = &script[k];
            let cmd = CmdSubmit {
                seqnum: urb.seqnum,
                devid: 0x0001_0002,
                direction: urb.direction,
                ep: urb.ep,
                transfer_flags: 0,
                transfer_buffer_length: urb.transfer_buffer_length,
                start_frame: 0,
                number_of_packets: 0,
                interval: 0,
                setup: urb.setup,
            };
            assert(cmd == submit_of(script_model(script@)[k as int]));
            let mut raw = vstd::slice::slice_to_vec(&cmd.encode());
            push_bytes(&mut raw, urb.out_body.as_slice());
            match push_usbip_envelope(out, self.import_id, raw.as_slice()) {
                Ok(_) => {},
                Err(e) => return Err(DriverError::Request(e)),
            }
            self.stats.urbs_issued = self.stats.urbs_issued + 1;
            self.phase = Phase::AwaitSubmit(k);
        } else {
            let unlink = CmdUnlink {
                seqnum: 9001,
                devid: 0x0001_0002,
                direction: URB_DIR_OUT,
                ep: 0,
                unlink_seqnum: 5,
            };
            match push_usbip_envelope(out, self.import_id, &unlink.encode()) {
                Ok(_) => {},
                Err(e) => return Err(DriverError::Request(e)),
            }
            self.stats.unlinks_issued = self.stats.unlinks_issued + 1;
            self.phase = Phase::AwaitUnlink;
        }
        Ok(())
    }

    /// Takes the envelope that answers what was issued last, and adds what it
    /// says to the transcript.
    pub fn accept(
        &mut self,
        script: &[ScriptedUrb],
        channel: Channel,
        payload: &[u8],
        log: &mut String,
    ) -> (r: Result<(), DriverError>)
        requires
            old(self).wf(script_model(script@)),
            old(self).phase is AwaitSubmit || old(self).phase is AwaitUnlink,
        ensures
            final(self).wf(script_model(script@)),
            ({
                let (text, next) = old(self).accepts(script_model(script@), channel, payload@);
                &&& final(log)@ == old(log)@ + text
                &&& match r {
                    Ok(_) => next == Ok::<Driver, DriverError>(*final(self)),
                    Err(e) => next == Err::<Driver, DriverError>(e) && *final(self) == *old(self),
                }
            }),
    {
        match self.phase {
            Phase::AwaitSubmit(k) => {
                let raw = match answer_packet(
                    Some(self.import_id),
                    UrbOp::RetSubmit,
                    channel,
                    payload,
                ) {
                    Ok(raw) => raw,
                    Err(e) => {
                        assert(log@ =~= old(log)@ + Seq::<char>::empty());
                        return Err(e);
                    },
                };
                let urb = &script[k];
                let ghost model = script_model(script@)[k as int];
                assert(model == urb@);
                proof {
                    lemma_in_bytes_bound(script_model(script@), k as nat);
                }
                let ret = match RetSubmit::parse(raw) {
                    Ok(ret) => ret,
                    Err(_) => return Err(DriverError::Short(raw.len())),
                };
                let body: u32 = ((raw.len() - URB_HEADER_LEN) as u64 % 0x1_0000_0000) as u32;
                log_urb(log, urb, &ret, body);
                if ret.status != urb.expected_status || ret.actual_length
                    != urb.expected_actual_length {
                    return Err(
                        DriverError::Mismatch {
                            status: ret.status,
                            actual_length: ret.actual_length,
                        },
                    );
                }
                if urb.direction == URB_DIR_IN {
                    if body != ret.actual_length {
                        return Err(
                            DriverError::BodyLength { body, actual_length: ret.actual_length },
                        );
                    }
                    self.stats.bytes_returned =
                    self.stats.bytes_returned + ret.actual_length as u64;
                }
                self.stats.urbs_ok = self.stats.urbs_ok + 1;
                self.phase = Phase::Ready(k + 1);
                Ok(())
            },
            Phase::AwaitUnlink => {
                let raw = match answer_packet(None, UrbOp::RetUnlink, channel, payload) {
                    Ok(raw) => raw,
                    Err(e) => {
                        assert(log@ =~= old(log)@ + Seq::<char>::empty());
                        return Err(e);
                    },
                };
                let ret = match RetUnlink::parse(raw) {
                    Ok(ret) => ret,
                    Err(_) => return Err(DriverError::Short(raw.len())),
                };
                log_unlink(log, &ret);
                if ret.status != 0 {
                    return Err(DriverError::UnlinkStatus(ret.status));
                }
                self.stats.unlinks_ok = self.stats.unlinks_ok + 1;
                self.phase = Phase::Done;
                log_summary(log, &self.stats);
                assert(log@ =~= old(log)@ + (unlink_line(ret) + summary_line(self.stats)));
                Ok(())
            },
            _ => Ok(()),
        }
    }
}

/// The packet inside an answer, if it is one of the given op.
fn answer_packet<'a>(
    import_id: Option<u32>,
    want: UrbOp,
    channel: Channel,
    payload: &'a [u8],
) -> (r: Result<&'a [u8], DriverError>)
    ensures
        match r {
            Ok(raw) => answer_raw(import_id, want, channel, payload@) == Ok::<
                Seq<u8>,
                DriverError,
            >(raw@) && raw@.len() >= URB_HEADER_LEN,
            Err(e) => answer_raw(import_id, want, channel, payload@) == Err::<
                Seq<u8>,
                DriverError,
            >(e),
        },
{
    if channel != Channel::Usbip {
        return Err(DriverError::WrongChannel(channel));
    }
    let f = match UsbipFrame::parse(payload) {
        Ok(f) => f,
        Err(e) => return Err(DriverError::Frame(e)),
    };
    if let Some(session) = import_id {
        if f.import_id != session {
            return Err(DriverError::WrongImport { found: f.import_id, session });
        }
    }
    match peek_urb_op(f.raw) {
        None => Err(DriverError::UnknownOp),
        Some(op) => if op != want {
            Err(DriverError::UnexpectedOp(op))
        } else if f.raw.len() < URB_HEADER_LEN {
            Err(DriverError::Short(f.raw.len()))
        } else {
            Ok(f.raw)
        },
    }
}

fn log_urb(log: &mut String, urb: &ScriptedUrb, ret: &RetSubmit, body: u32)
    ensures
        final(log)@ == old(log)@ + urb_line(urb@, *ret, body),
{
    push_str(log, "sim-urb ");
    push_str(log, urb.label.as_str());
    push_str(log, " seq=");
    push_dec(log, ret.seqnum as u64);
    push_str(log, " ep=");
    push_dec(log, urb.ep as u64);
    push_str(log, " dir=");
    push_dec(log, urb.direction as u64);
    push_str(log, " status=");
    push_signed(log, ret.status);
    push_str(log, " actual_length=");
    push_dec(log, ret.actual_length as u64);
    push_str(log, " body_bytes=");
    push_dec(log, body as u64);
    push_str(log, "\n");
    assert(log@ =~= old(log)@ + urb_line(urb@, *ret, body));
}

fn log_unlink(log: &mut String, ret: &RetUnlink)
    ensures
        final(log)@ == old(log)@ + unlink_line(*ret),
{
    push_str(log, "sim-unlink seq=");
    push_dec(log, ret.seqnum as u64);
    push_str(log, " status=");
    push_signed(log, ret.status);
    push_str(log, " target_seq=");
    push_dec(log, 5);
    push_str(log, "\n");
    assert(log@ =~= old(log)@ + unlink_line(*ret));
}

fn log_summary(log: &mut String, s: &DriverStats)
    ensures
        final(log)@ == old(log)@ + summary_line(*s),
{
    push_str(log, "sim-summary urbs_issued=");
    push_dec(log, s.urbs_issued as u64);
    push_str(log, " urbs_ok=");
    push_dec(log, s.urbs_ok as u64);
    push_str(log, " unlinks_issued=");
    push_dec(log, s.unlinks_issued as u64);
    push_str(log, " unlinks_ok=");
    push_dec(log, s.unlinks_ok as u64);
    push_str(log, " bytes_returned=");
    push_dec(log, s.bytes_returned);
    push_str(log, "\n");
    assert(log@ =~= old(log)@ + summary_line(*s));
}

/// A run keeps to its script: from a state that can occur, issuing what comes
/// next and every answer that is accepted lead to a state that can occur.
pub proof fn lemma_run_keeps_to_script(
    d: Driver,
    script: Seq<UrbModel>,
    channel: Channel,
    payload: Seq<u8>,
)
    requires
        d.wf(script),
    ensures
        d.issued(script.len()).wf(script),
        d.accepts(script, channel, payload).1 matches Ok(next) ==> next.wf(script),
{
    if let Phase::AwaitSubmit(k) = d.phase {
        lemma_in_bytes_bound(script, (k + 1) as nat);
    }
}

/// A run of any script that is done has issued all its URBs and the unlink, has
/// had each answered as expected, and has returned exactly the bytes that its
/// reading URBs are expected to return.
pub proof fn lemma_done_returned_all(d: Driver, script: Seq<UrbModel>)
    requires
        d.wf(script),
        d.phase is Done,
    ensures
        d.stats.urbs_issued == script.len(),
        d.stats.urbs_ok == script.len(),
        d.stats.unlinks_issued == 1,
        d.stats.unlinks_ok == 1,
        d.stats.bytes_returned == in_bytes(script, script.len()),
{
}

/// The bytes that issue a URB: one envelope on the USB/IP channel for the
/// session's import, with a submit header that has the URB's own sequence
/// number, direction, endpoint, length and setup packet, device 1-2 and no
/// flags, and then the bytes it carries. It fails only where these do not fit
/// into an envelope.
pub proof fn lemma_urb_request_bytes(d: Driver, script: Seq<UrbModel>, k: usize)
    requires
        d.phase == Phase::Ready(k),
        k < script.len(),
    ensures
        d.request(script) is Ok <==> script[k as int].out_body.len() + 52 <= 0x10_0000,
        d.request(script) matches Ok(sent) ==> {
            let u = script[k as int];
            &&& sent.len() == 60 + u.out_body.len()
            &&& sent[3] == 2
            &&& be32_at(sent, 8) == d.import_id
            &&& be32_at(sent, 12) == 1
            &&& be32_at(sent, 16) == u.seqnum
            &&& be32_at(sent, 20) == 0x1_0002
            &&& be32_at(sent, 24) == u.direction
            &&& be32_at(sent, 28) == u.ep
            &&& be32_at(sent, 32) == 0
            &&& be32_at(sent, 36) == u.transfer_buffer_length
            &&& be32_at(sent, 40) == 0
            &&& be32_at(sent, 44) == 0
            &&& be32_at(sent, 48) == 0
            &&& forall|i: int| 0 <= i < 8 ==> #[trigger] sent[52 + i] == u.setup@[i]
            &&& forall|i: int| 0 <= i < u.out_body.len() ==> #[trigger] sent[60 + i] == u.out_body[i]
        },
{
    let u = script[k as int];
    let cmd = submit_of(u);
    let head = cmd.bytes();
    let raw = head + u.out_body;
    lemma_cmd_submit_layout(cmd, raw);
    lemma_usbip_frame_layout(d.import_id, raw);
    if let Ok(sent) = d.request(script) {
        lemma_packet_in_envelope(d.import_id, raw, sent);
        assert forall|i: int| 0 <= i < 48 implies #[trigger] raw[0 + i] == head[i] by {}
        lemma_inner_word(raw, head, 0, 0);
        assert(be32_at(sent, 12int + 0int) == be32_at(raw, 0));
        lemma_inner_word(raw, head, 0, 4);
        assert(be32_at(sent, 12int + 4int) == be32_at(raw, 4));
        lemma_inner_word(raw, head, 0, 8);
        assert(be32_at(sent, 12int + 8int) == be32_at(raw, 8));
        lemma_inner_word(raw, head, 0, 12);
        assert(be32_at(sent, 12int + 12int) == be32_at(raw, 12));
        lemma_inner_word(raw, head, 0, 16);
        assert(be32_at(sent, 12int + 16int) == be32_at(raw, 16));
        lemma_inner_word(raw, head, 0, 20);
        assert(be32_at(sent, 12int + 20int) == be32_at(raw, 20));
        lemma_inner_word(raw, head, 0, 24);
        assert(be32_at(sent, 12int + 24int) == be32_at(raw, 24));
        lemma_inner_word(raw, head, 0, 28);
        assert(be32_at(sent, 12int + 28int) == be32_at(raw, 28));
        lemma_inner_word(raw, head, 0, 32);
        assert(be32_at(sent, 12int + 32int) == be32_at(raw, 32));
        lemma_inner_word(raw, head, 0, 36);
        assert(be32_at(sent, 12int + 36int) == be32_at(raw, 36));
        assert forall|i: int| 0 <= i < 8 implies #[trigger] sent[52 + i] == u.setup@[i] by {
            assert(sent[12 + (40 + i)] == raw[40 + i]);
            assert(head[40 + i] == u.setup@[i]);
        }
        assert forall|i: int| 0 <= i < u.out_body.len() implies #[trigger] sent[60 + i]
            == u.out_body[i] by {
            assert(sent[12 + (48 + i)] == raw[48 + i]);
        }
    }
}

/// The bytes behind the last URB: an unlink with sequence number 9001 of the
/// submit with sequence number 5.
pub proof fn lemma_unlink_request_bytes(d: Driver, script: Seq<UrbModel>, k: usize)
    requires
        d.phase == Phase::Ready(k),
        k >= script.len(),
    ensures
        d.request(script) matches Ok(sent) && sent.len() == 60 && sent[3] == 2 && be32_at(sent, 8)
            == d.import_id && be32_at(sent, 12) == 2 && be32_at(sent, 16) == 9001 && be32_at(
            sent,
            20,
        ) == 0x1_0002 && be32_at(sent, 24) == 0 && be32_at(sent, 28) == 0 && be32_at(sent, 32) == 5
            && (forall|i: int| 36 <= i < 60 ==> #[trigger] sent[i] == 0),
{
    let u = final_unlink();
    let head = u.bytes();
    let raw = head;
    lemma_cmd_unlink_layout(u, raw);
    lemma_usbip_frame_layout(d.import_id, raw);
    let sent = d.request(script)->Ok_0;
    lemma_packet_in_envelope(d.import_id, raw, sent);
    assert forall|i: int| 0 <= i < 48 implies #[trigger] raw[0 + i] == head[i] by {}
    lemma_inner_word(raw, head, 0, 0);
    assert(be32_at(sent, 12int + 0int) == be32_at(raw, 0));
    lemma_inner_word(raw, head, 0, 4);
    assert(be32_at(sent, 12int + 4int) == be32_at(raw, 4));
    lemma_inner_word(raw, head, 0, 8);
    assert(be32_at(sent, 12int + 8int) == be32_at(raw, 8));
    lemma_inner_word(raw, head, 0, 12);
    assert(be32_at(sent, 12int + 12int) == be32_at(raw, 12));
    lemma_inner_word(raw, head, 0, 16);
    assert(be32_at(sent, 12int + 16int) == be32_at(raw, 16));
    lemma_inner_word(raw, head, 0, 20);
    assert(be32_at(sent, 12int + 20int) == be32_at(raw, 20));
    assert forall|i: int| 36 <= i < 60 implies #[trigger] sent[i] == 0 by {
        assert(sent[12 + (i - 12)] == raw[i - 12]);
    }
}

/// Issuing counts one URB, or behind the last one the unlink, and awaits its
/// answer; nothing else changes.
pub proof fn lemma_issue_counts_one(d: Driver, len: nat, k: usize)
    requires
        d.phase == Phase::Ready(k),
        d.stats.urbs_issued < u32::MAX,
        d.stats.unlinks_issued < u32::MAX,
    ensures
        ({
            let after = d.issued(len);
            &&& after.import_id == d.import_id
            &&& after.stats.urbs_ok == d.stats.urbs_ok
            &&& after.stats.unlinks_ok == d.stats.unlinks_ok
            &&& after.stats.bytes_returned == d.stats.bytes_returned
            &&& k < len ==> after.phase == Phase::AwaitSubmit(k) && after.stats.urbs_issued
                == d.stats.urbs_issued + 1 && after.stats.unlinks_issued == d.stats.unlinks_issued
            &&& k >= len ==> after.phase == Phase::AwaitUnlink && after.stats.urbs_issued
                == d.stats.urbs_issued && after.stats.unlinks_issued == d.stats.unlinks_issued + 1
        }),
{
}

/// When an answer holds the awaited packet.
proof fn lemma_answer_raw(import_id: Option<u32>, want: UrbOp, channel: Channel, payload: Seq<u8>)
    ensures
        ({
            let r = answer_raw(import_id, want, channel, payload);
            &&& r is Ok <==> channel == Channel::Usbip && payload.len() >= 52 && (
            import_id is Some ==> be32_at(payload, 0) == import_id->Some_0) && be32_at(payload, 4)
                == want.code()
            &&& r is Ok ==> r->Ok_0 == payload.skip(4)
            &&& r == Err::<Seq<u8>, DriverError>(DriverError::WrongChannel(channel)) <==> channel
                != Channel::Usbip
            &&& r matches Err(DriverError::WrongChannel(c)) ==> c == channel
            &&& (r matches Err(DriverError::WrongImport { found: _, session: _ })) <==> channel
                == Channel::Usbip && payload.len() >= 4 && import_id is Some && be32_at(payload, 0)
                != import_id->Some_0
            &&& !(r matches Err(DriverError::Mismatch { status: _, actual_length: _ }))
            &&& !(r matches Err(DriverError::BodyLength { body: _, actual_length: _ }))
        }),
{
    if payload.len() >= 8 {
        let raw = payload.skip(4);
        assert forall|i: int| 0 <= i < raw.len() implies #[trigger] payload[4 + i] == raw[i] by {}
        lemma_inner_word(payload, raw, 4, 0);
    }
}

/// The status and length in an answer.
proof fn lemma_answer_fields(payload: Seq<u8>)
    requires
        payload.len() >= 52,
    ensures
        ({
            let ret = RetSubmit::at(payload.skip(4));
            &&& ret.status == if be32_at(payload, 24) < 0x8000_0000 {
                be32_at(payload, 24) as int
            } else {
                be32_at(payload, 24) - 0x1_0000_0000
            }
            &&& ret.actual_length == be32_at(payload, 28)
        }),
{
    let raw = payload.skip(4);
    assert forall|i: int| 0 <= i < raw.len() implies #[trigger] payload[4 + i] == raw[i] by {}
    lemma_ret_submit_layout(RetSubmit::at(raw), raw);
    lemma_inner_word(payload, raw, 4, 20);
    lemma_inner_word(payload, raw, 4, 24);
}

/// Which answers to a URB are accepted: those on the USB/IP channel, for the
/// session's import, with a return header whose status and length are the
/// expected ones, and for a read with just as many bytes behind it. An accepted
/// answer counts the URB and, for a read, its bytes.
#[verifier::spinoff_prover]
#[verifier::rlimit(40)]
pub proof fn lemma_submit_answers(
    d: Driver,
    script: Seq<UrbModel>,
    k: usize,
    channel: Channel,
    payload: Seq<u8>,
)
    requires
        d.phase == Phase::AwaitSubmit(k),
        k < script.len() <= usize::MAX,
        d.stats.urbs_ok < u32::MAX,
        d.stats.bytes_returned <= u64::MAX - u32::MAX,
        payload.len() <= u32::MAX,
    ensures
        ({
            let u = script[k as int];
            let r = d.accepts(script, channel, payload).1;
            let whole = channel == Channel::Usbip && payload.len() >= 52 && be32_at(payload, 0)
                == d.import_id && be32_at(payload, 4) == 3;
            let status = if be32_at(payload, 24) < 0x8000_0000 {
                be32_at(payload, 24) as int
            } else {
                be32_at(payload, 24) - 0x1_0000_0000
            };
            let length = be32_at(payload, 28);
            let expected = status == u.expected_status && length == u.expected_actual_length;
            &&& r is Ok <==> whole && expected && (u.direction == 1 ==> payload.len() - 52 == length)
            &&& r matches Ok(after) ==> {
                &&& after.phase == Phase::Ready((k + 1) as usize)
                &&& after.import_id == d.import_id
                &&& after.stats.urbs_issued == d.stats.urbs_issued
                &&& after.stats.urbs_ok == d.stats.urbs_ok + 1
                &&& after.stats.unlinks_issued == d.stats.unlinks_issued
                &&& after.stats.unlinks_ok == d.stats.unlinks_ok
                &&& after.stats.bytes_returned == d.stats.bytes_returned + if u.direction == 1 {
                    length as int
                } else {
                    0
                }
            }
            &&& r == Err::<Driver, DriverError>(DriverError::WrongChannel(channel)) <==> channel
                != Channel::Usbip
            &&& channel == Channel::Usbip && payload.len() >= 4 && be32_at(payload, 0)
                != d.import_id <==> (r matches Err(
                DriverError::WrongImport { found: _, session: _ },
            ))
            &&& (r matches Err(DriverError::Mismatch { status: _, actual_length: _ })) <==> whole
                && !expected
            &&& r matches Err(DriverError::Mismatch { status: s, actual_length: n }) ==> s == status
                && n == length
            &&& (r matches Err(DriverError::BodyLength { body: _, actual_length: _ })) <==> whole
                && expected && u.direction == 1 && payload.len() - 52 != length
            &&& r matches Err(DriverError::BodyLength { body, actual_length }) ==> body
                == payload.len() - 52 && actual_length == length
        }),
{
    lemma_answer_raw(Some(d.import_id), UrbOp::RetSubmit, channel, payload);
    if payload.len() >= 52 {
        lemma_answer_fields(payload);
    }
}

/// Which answers to the unlink are accepted: those on the USB/IP channel with a
/// return header whose status is 0. Then the run is done.
pub proof fn lemma_unlink_answers(
    d: Driver,
    script: Seq<UrbModel>,
    channel: Channel,
    payload: Seq<u8>,
)
    requires
        d.phase == Phase::AwaitUnlink,
        d.stats.unlinks_ok < u32::MAX,
    ensures
        ({
            let r = d.accepts(script, channel, payload).1;
            &&& r is Ok <==> channel == Channel::Usbip && payload.len() >= 52 && be32_at(payload, 4)
                == 4 && be32_at(payload, 24) == 0
            &&& r matches Ok(after) ==> after.phase == Phase::Done && after.import_id
                == d.import_id && after.stats == (DriverStats {
                unlinks_ok: (d.stats.unlinks_ok + 1) as u32,
                ..d.stats
            })
        }),
{
    if payload.len() >= 52 {
        let raw = payload.skip(4);
        assert forall|i: int| 0 <= i < raw.len() implies #[trigger] payload[4 + i] == raw[i] by {}
        lemma_ret_unlink_layout(RetUnlink::at(raw), raw);
        lemma_inner_word(payload, raw, 4, 0);
        lemma_inner_word(payload, raw, 4, 20);
    } else if payload.len() >= 8 {
        let raw = payload.skip(4);
        assert forall|i: int| 0 <= i < raw.len() implies #[trigger] payload[4 + i] == raw[i] by {}
        lemma_inner_word(payload, raw, 4, 0);
    }
}

/// The lines of the transcript, part by part.
pub proof fn lemma_transcript_lines(
    u: UrbModel,
    ret: RetSubmit,
    body: u32,
    done: RetUnlink,
    s: DriverStats,
)
    ensures
        urb_line(u, ret, body) == "sim-urb "@ + u.label + " seq="@ + dec(ret.seqnum as nat)
            + " ep="@ + dec(u.ep as nat) + " dir="@ + dec(u.direction as nat) + " status="@
            + signed_dec(ret.status as int) + " actual_length="@ + dec(ret.actual_length as nat)
            + " body_bytes="@ + dec(body as nat) + "\n"@,
        unlink_line(done) == "sim-unlink seq="@ + dec(done.seqnum as nat) + " status="@
            + signed_dec(done.status as int) + " target_seq="@ + dec(5) + "\n"@,
        summary_line(s) == "sim-summary urbs_issued="@ + dec(s.urbs_issued as nat) + " urbs_ok="@
            + dec(s.urbs_ok as nat) + " unlinks_issued="@ + dec(s.unlinks_issued as nat)
            + " unlinks_ok="@ + dec(s.unlinks_ok as nat) + " bytes_returned="@ + dec(
            s.bytes_returned as nat,
        ) + "\n"@,
{
}

/// What the default script is made of: descriptors of the device and of its
/// configuration in two steps, the choice of configuration 1, reads from
/// endpoint 1 and a write of ascending bytes to endpoint 2. Every URB expects to
/// succeed with just the length it asks for, and has a sequence number of its
/// own.
pub proof fn lemma_default_script(n: nat, i: int, j: int)
    requires
        0 <= i < 7 + n,
        n <= u32::MAX - 99,
    ensures
        ({
            let s = default_script(n);
            let u = s[i];
            let fetch = |kind: u8, len: u8|
                u.ep == 0 && u.direction == 1 && u.setup@ == seq![
                    0x80u8,
                    6,
                    0,
                    kind,
                    0,
                    0,
                    len,
                    0,
                ] && u.transfer_buffer_length == len;
            let read = |len: u32|
                u.ep == 1 && u.direction == 1 && u.setup@ == seq![0u8, 0, 0, 0, 0, 0, 0, 0]
                    && u.transfer_buffer_length == len;
            &&& s.len() == 7 + n
            &&& u.expected_status == 0
            &&& u.expected_actual_length == u.transfer_buffer_length
            &&& u.direction == 1 ==> u.out_body.len() == 0
            &&& u.direction == 0 ==> u.out_body.len() == u.transfer_buffer_length
            &&& u.direction <= 1
            &&& u.seqnum == if i < 7 {
                i + 1
            } else {
                93 + i
            }
            &&& i == 0 ==> fetch(1, 18)
            &&& i == 1 ==> fetch(2, 9)
            &&& i == 2 ==> fetch(2, 32)
            &&& i == 3 ==> u.ep == 0 && u.direction == 0 && u.transfer_buffer_length == 0
                && u.setup@ == seq![0u8, 9, 1, 0, 0, 0, 0, 0]
            &&& i == 4 ==> read(64)
            &&& i == 5 ==> u.ep == 2 && u.direction == 0 && u.transfer_buffer_length == 64 && (
            forall|b: int| 0 <= b < 64 ==> #[trigger] u.out_body[b] == b)
            &&& i == 6 ==> read(32)
            &&& i >= 7 ==> read(64)
            &&& 0 <= j < 7 + n && i != j ==> u.seqnum != s[j].seqnum
        }),
{
    let s = default_script(n);
    assert(i < 7 ==> s[i] == script_head()[i]);
    assert(0 <= j < 7 ==> s[j] == script_head()[j]);
    let u = s[i];
    if i == 0 {
        assert(u.setup@ =~= seq![0x80u8, 6, 0, 1, 0, 0, 18, 0]);
    } else if i == 1 {
        assert(u.setup@ =~= seq![0x80u8, 6, 0, 2, 0, 0, 9, 0]);
    } else if i == 2 {
        assert(u.setup@ =~= seq![0x80u8, 6, 0, 2, 0, 0, 32, 0]);
    } else if i == 3 {
        assert(u.setup@ =~= seq![0u8, 9, 1, 0, 0, 0, 0, 0]);
    } else {
        assert(u.setup@ =~= seq![0u8, 0, 0, 0, 0, 0, 0, 0]);
    }
}

/// The expected bytes add up over the URBs that read, and over no others.
pub proof fn lemma_in_bytes_adds_up(script: Seq<UrbModel>, k: nat)
    ensures
        in_bytes(script, 0) == 0,
        in_bytes(script, k + 1) == in_bytes(script, k) + if script[k as int].direction == 1 {
            script[k as int].expected_actual_length as nat
        } else {
            0
        },
{
}

/// Why an answer to a URB is not even looked at, in the order in which it is
/// found out: the wrong channel, no import id, another import, no known op,
/// another op than a submit's return, less than a header.
pub proof fn lemma_unreadable_answers(
    d: Driver,
    script: Seq<UrbModel>,
    k: usize,
    channel: Channel,
    payload: Seq<u8>,
)
    requires
        d.phase == Phase::AwaitSubmit(k),
        channel == Channel::Usbip,
    ensures
        ({
            let (text, r) = d.accepts(script, channel, payload);
            let op = be32_at(payload, 4);
            let ours = payload.len() >= 4 && be32_at(payload, 0) == d.import_id;
            &&& payload.len() < 4 ==> r == Err::<Driver, DriverError>(
                DriverError::Frame(UsbipError::Short(payload.len() as usize)),
            )
            &&& payload.len() >= 4 && !ours ==> r == Err::<Driver, DriverError>(
                DriverError::WrongImport { found: be32_at(payload, 0), session: d.import_id },
            )
            &&& ours && (payload.len() < 8 || !(1 <= op <= 4)) ==> r == Err::<Driver, DriverError>(
                DriverError::UnknownOp,
            )
            &&& ours && payload.len() >= 8 && op == 1 ==> r == Err::<Driver, DriverError>(
                DriverError::UnexpectedOp(UrbOp::CmdSubmit),
            )
            &&& ours && payload.len() >= 8 && op == 2 ==> r == Err::<Driver, DriverError>(
                DriverError::UnexpectedOp(UrbOp::CmdUnlink),
            )
            &&& ours && payload.len() >= 8 && op == 4 ==> r == Err::<Driver, DriverError>(
                DriverError::UnexpectedOp(UrbOp::RetUnlink),
            )
            &&& ours && 8 <= payload.len() < 52 && op == 3 ==> r == Err::<Driver, DriverError>(
                DriverError::Short((payload.len() - 4) as usize),
            )
            &&& !(ours && payload.len() >= 52 && op == 3) ==> text.len() == 0
            &&& ours && payload.len() >= 52 && op == 3 ==> text == urb_line(
                script[k as int],
                RetSubmit::at(payload.skip(4)),
                ((payload.len() - 52) % 0x1_0000_0000) as u32,
            )
        }),
{
    if payload.len() >= 8 {
        let raw = payload.skip(4);
        assert forall|i: int| 0 <= i < raw.len() implies #[trigger] payload[4 + i] == raw[i] by {}
        lemma_inner_word(payload, raw, 4, 0);
    }
}

/// What the answer to the unlink leaves in the transcript: its line, and behind
/// it the summary where the run is done. A refusal says with which status.
pub proof fn lemma_unlink_transcript(
    d: Driver,
    script: Seq<UrbModel>,
    channel: Channel,
    payload: Seq<u8>,
)
    requires
        d.phase == Phase::AwaitUnlink,
        channel == Channel::Usbip,
        payload.len() >= 52,
        be32_at(payload, 4) == 4,
    ensures
        ({
            let (text, r) = d.accepts(script, channel, payload);
            let ret = RetUnlink::at(payload.skip(4));
            &&& r matches Ok(after) ==> text == unlink_line(ret) + summary_line(after.stats)
            &&& r is Err ==> text == unlink_line(ret) && r == Err::<Driver, DriverError>(
                DriverError::UnlinkStatus(ret.status),
            )
        }),
{
    let raw = payload.skip(4);
    assert forall|i: int| 0 <= i < raw.len() implies #[trigger] payload[4 + i] == raw[i] by {}
    lemma_inner_word(payload, raw, 4, 0);
}

} // verus!
