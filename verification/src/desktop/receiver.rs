//! The receiver's side of the HID fast lane, once the handshake is through.
//!
//! `HidSession` turns what the sender streams into input events.
//! `SourceSession` is its stand-in where no virtual device can be opened: it
//! writes the reports to a log instead.

use vstd::prelude::*;

use crate::bytes::be16_at;
use crate::desktop::report::{
    apply_report, lemma_mouse_moves_each_axis, lemma_rel_sum_concat, mouse_events, rel_sum,
    report_events, state_after, twos_complement, InputState,
};
use crate::desktop::uinput::{DeviceProfile, InputEvent, ProfileModel, UinputDevice};
use crate::protocol::envelope::{envelope_bytes, Channel, Envelope, MAX_PAYLOAD};
use crate::protocol::hid::{
    bind_ack_body, hid_frame_bytes, hid_outcome, lemma_bind_ack_body_round_trip,
    lemma_hid_frame_round_trip, parse_bind_ack_body, BindAckMeta, DeviceKind, HidError, HidFrame,
    HidOp,
};
use crate::text::{
    bool_text, byte_list, dec, pad_front, push_bool, push_byte_list, push_dec, push_dec_padded,
    push_str, quote, quoted,
};

pub use crate::protocol::envelope::HEADER_LEN as ENVELOPE_HEADER_LEN;

verus! {

/// Options of a receive session.
pub struct ReceiveOpts {
    pub sender_name: String,
    /// Seconds to look for senders.
    pub discover_timeout: u64,
    pub busid: Option<String>,
    /// Dial this `host:port` instead of looking for a sender.
    pub direct_target: Option<String>,
    pub client_name: String,
    /// Write a JSON-line trace of every protocol event to this path.
    pub diagnose_log: Option<String>,
}

/// The name of a device kind.
pub open spec fn kind_name(kind: DeviceKind) -> Seq<char> {
    match kind {
        DeviceKind::Mouse => "Mouse"@,
        DeviceKind::Keyboard => "Keyboard"@,
        DeviceKind::Gamepad => "Gamepad"@,
        DeviceKind::Other => "Other"@,
    }
}

/// The name of a device kind.
pub fn kind_str(kind: DeviceKind) -> (s: &'static str)
    ensures
        s@ == kind_name(kind),
{
    match kind {
        DeviceKind::Mouse => "Mouse",
        DeviceKind::Keyboard => "Keyboard",
        DeviceKind::Gamepad => "Gamepad",
        DeviceKind::Other => "Other",
    }
}

/// The virtual device for what the sender has bound. Only mice and keyboards
/// are supported; the kind of anything else comes back as the error.
pub fn open_device(meta: &BindAckMeta) -> (r: Result<DeviceProfile, DeviceKind>)
    ensures
        match r {
            Ok(p) => (meta.kind == DeviceKind::Mouse || meta.kind == DeviceKind::Keyboard) && p@
                == (ProfileModel {
                keyboard: meta.kind == DeviceKind::Keyboard,
                name: "zerowire: "@ + meta.name@,
                vendor_id: meta.vendor_id,
                product_id: meta.product_id,
            }),
            Err(k) => k == meta.kind && (meta.kind == DeviceKind::Gamepad || meta.kind
                == DeviceKind::Other),
        },
{
    let mut name = String::new();
    push_str(&mut name, "zerowire: ");
    push_str(&mut name, meta.name.as_str());
    assert(name@ =~= "zerowire: "@ + meta.name@);
    match meta.kind {
        DeviceKind::Mouse => Ok(
            DeviceProfile::Mouse {
                name,
                vendor_id: meta.vendor_id,
                product_id: meta.product_id,
            },
        ),
        DeviceKind::Keyboard => Ok(
            DeviceProfile::Keyboard {
                name,
                vendor_id: meta.vendor_id,
                product_id: meta.product_id,
            },
        ),
        _ => Err(meta.kind),
    }
}

/// The metadata of a synthetic mouse.
pub fn synth_mouse_meta(busid: &str) -> (m: BindAckMeta)
    ensures
        m.busid@ == busid@,
        m.kind == DeviceKind::Mouse,
        m.vendor_id == 0xBADD,
        m.product_id == 0xC0DE,
        m.name@ == "zerowire-mock mouse"@,
{
    BindAckMeta {
        busid: busid.to_owned(),
        kind: DeviceKind::Mouse,
        vendor_id: 0xBADD,
        product_id: 0xC0DE,
        name: "zerowire-mock mouse".to_owned(),
    }
}

/// Encodes a HID frame into its envelope.
pub fn hid_envelope(frame: &HidFrame<'_>) -> (v: Vec<u8>)
    requires
        frame.body@.len() <= MAX_PAYLOAD - 4,
    ensures
        v@ == envelope_bytes(Channel::Hid, frame.bytes()),
{
    let body = frame.encode();
    match Envelope::new(Channel::Hid, body.as_slice()).encode() {
        Ok(v) => v,
        Err(_) => Vec::new(),
    }
}

/// The sequence number behind `seq`.
pub open spec fn next_seq(seq: u16) -> u16 {
    if seq == 0xFFFF {
        0
    } else {
        (seq + 1) as u16
    }
}

/// The parts of a `BindAck` body.
pub open spec fn bind_ack_parts(body: Seq<u8>) -> Option<(Seq<u8>, Seq<u8>)> {
    if body.len() < 2 || body.len() < 2 + be16_at(body, 0) {
        None
    } else {
        Some((body.subrange(2, 2 + be16_at(body, 0)), body.skip(2 + be16_at(body, 0))))
    }
}

/// What an envelope asks of a bound receiver.
pub enum HidEvent<'a> {
    /// Keepalives, control messages and USB/IP packets change nothing.
    Ignored,
    /// The sender has bound the device: open a virtual one.
    BindAck { meta: &'a [u8], descriptor: &'a [u8] },
    /// The device has emitted the events of a report. `jump` is the previous
    /// sequence number where this one does not follow it.
    Report { seq: u16, jump: Option<u16>, body: &'a [u8] },
    /// A report before any device was opened is dropped.
    EarlyReport { seq: u16, jump: Option<u16> },
    /// The sender has ended the binding.
    Unbind { body: &'a [u8] },
    /// A frame that receivers do not handle.
    Unhandled { op: HidOp },
}

/// Model of a `HidEvent`.
pub enum HidStep {
    Ignored,
    BindAck { meta: Seq<u8>, descriptor: Seq<u8> },
    Report { seq: u16, jump: Option<u16>, body: Seq<u8> },
    EarlyReport { seq: u16, jump: Option<u16> },
    Unbind { body: Seq<u8> },
    Unhandled { op: HidOp },
}

impl<'a> View for HidEvent<'a> {
    type V = HidStep;

    open spec fn view(&self) -> HidStep {
        match *self {
            HidEvent::Ignored => HidStep::Ignored,
            HidEvent::BindAck { meta, descriptor } => HidStep::BindAck {
                meta: meta@,
                descriptor: descriptor@,
            },
            HidEvent::Report { seq, jump, body } => HidStep::Report { seq, jump, body: body@ },
            HidEvent::EarlyReport { seq, jump } => HidStep::EarlyReport { seq, jump },
            HidEvent::Unbind { body } => HidStep::Unbind { body: body@ },
            HidEvent::Unhandled { op } => HidStep::Unhandled { op },
        }
    }
}

/// State of a bound receiver.
pub struct HidSession {
    /// The virtual device, once it is open.
    pub device: Option<UinputDevice>,
    /// Sequence number of the last report, 0 before the first.
    pub last_seq: u16,
    /// Reports that were injected.
    pub reports_seen: u64,
    pub input: InputState,
}

/// The sequence number that a report jumped from, if it did. Nothing is known
/// before the first report, nor behind sequence number 0.
pub open spec fn seq_jump(last: u16, seq: u16) -> Option<u16> {
    if last != 0 && seq != next_seq(last) {
        Some(last)
    } else {
        None
    }
}

impl HidSession {
    /// What an envelope asks of a receiver in this state.
    pub open spec fn step(self, channel: Channel, payload: Seq<u8>) -> Result<HidStep, HidError> {
        if channel != Channel::Hid {
            Ok(HidStep::Ignored)
        } else {
            match hid_outcome(payload) {
                Err(e) => Err(e),
                Ok((op, _, seq, body)) => match op {
                    HidOp::BindAck => match bind_ack_parts(body) {
                        None => Err(HidError::Short(body.len() as usize)),
                        Some((meta, descriptor)) => Ok(HidStep::BindAck { meta, descriptor }),
                    },
                    HidOp::ReportIn => if self.device is Some {
                        Ok(HidStep::Report { seq, jump: seq_jump(self.last_seq, seq), body })
                    } else {
                        Ok(HidStep::EarlyReport { seq, jump: seq_jump(self.last_seq, seq) })
                    },
                    HidOp::Unbind => Ok(HidStep::Unbind { body }),
                    _ => Ok(HidStep::Unhandled { op }),
                },
            }
        }
    }

    /// Whether `after` is the state behind an envelope: only reports change it.
    /// An open device emits exactly the events of the report.
    pub open spec fn moves_to(
        self,
        channel: Channel,
        payload: Seq<u8>,
        after: HidSession,
    ) -> bool {
        &&& after.device is Some == self.device is Some
        &&& if channel == Channel::Hid && hid_outcome(payload) is Ok && hid_outcome(payload)->Ok_0.0
            == HidOp::ReportIn {
            let (_, _, seq, body) = hid_outcome(payload)->Ok_0;
            &&& after.last_seq == seq
            &&& if self.device is Some {
                after.reports_seen == self.reports_seen + 1 && state_after(
                    self.input,
                    body,
                    after.input,
                ) && after.device->Some_0.emitted(
                    self.device->Some_0,
                    report_events(self.input, body),
                )
            } else {
                after.reports_seen == self.reports_seen && after.input == self.input
            }
        } else {
            after == self
        }
    }

    /// A receiver that awaits the sender's acknowledgement.
    pub fn new() -> (s: HidSession)
        ensures
            s.device is None,
            s.last_seq == 0,
            s.reports_seen == 0,
            s.input.buttons == 0,
            s.input.modifiers == 0,
            s.input.keys@ == seq![0u8, 0, 0, 0, 0, 0],
    {
        HidSession { device: None, last_seq: 0, reports_seen: 0, input: InputState::new() }
    }

    /// Takes the virtual device that was opened, in place of any earlier one.
    pub fn device_opened(&mut self, device: UinputDevice)
        ensures
            *final(self) == (HidSession { device: Some(device), ..*old(self) }),
    {
        self.device = Some(device);
    }

    /// Handles one envelope.
    pub fn on_envelope<'a>(&mut self, channel: Channel, payload: &'a [u8]) -> (r: Result<
        HidEvent<'a>,
        HidError,
    >)
        requires
            old(self).reports_seen < u64::MAX,
        ensures
            match r {
                Ok(ev) => old(self).step(channel, payload@) == Ok::<HidStep, HidError>(ev@),
                Err(e) => old(self).step(channel, payload@) == Err::<HidStep, HidError>(e),
            },
            old(self).moves_to(channel, payload@, *final(self)),
            is_report(channel, payload@) ==> final(self).last_seq == payload@[2] * 0x100
                + payload@[3],
            is_report(channel, payload@) ==> final(self).reports_seen == old(self).reports_seen + (
            if old(self).device is Some {
                1int
            } else {
                0
            }),
            !is_report(channel, payload@) ==> *final(self) == *old(self),
            is_report(channel, payload@) && old(self).device is Some ==> (r matches Ok(
                HidEvent::Report { seq, jump, body },
            ) && seq == payload@[2] * 0x100 + payload@[3] && body@ == payload@.skip(4) && (jump
                is Some <==> old(self).last_seq != 0 && seq != (old(self).last_seq + 1) % 0x1_0000)
                && (jump is Some ==> jump == Some(old(self).last_seq))),
            is_report(channel, payload@) && old(self).device is Some && payload@.len() > 4
                && payload@.len() != 12 ==> {
                let before = old(self).device->Some_0.pending@;
                let after = final(self).device->Some_0.pending@;
                let body = payload@.skip(4);
                &&& rel_sum(after, 0x00) == rel_sum(before, 0x00) + twos_complement(body, 1)
                &&& rel_sum(after, 0x01) == rel_sum(before, 0x01) + twos_complement(body, 2)
                &&& rel_sum(after, 0x08) == rel_sum(before, 0x08) + twos_complement(body, 3)
            },
    {
        if channel != Channel::Hid {
            return Ok(HidEvent::Ignored);
        }
        let frame = match HidFrame::parse(payload) {
            Ok(f) => f,
            Err(e) => return Err(e),
        };
        match frame.op {
            HidOp::BindAck => match parse_bind_ack_body(frame.body) {
                Ok((meta, descriptor)) => Ok(HidEvent::BindAck { meta, descriptor }),
                Err(e) => Err(e),
            },
            HidOp::ReportIn => {
                let last: u16 = self.last_seq;
                let follows: u16 = if last == 0xFFFF {
                    0
                } else {
                    last + 1
                };
                let jump: Option<u16> = if last != 0 && frame.seq != follows {
                    Some(last)
                } else {
                    None
                };
                self.last_seq = frame.seq;
                match &mut self.device {
                    Some(device) => {
                        let ghost before = device.pending@;
                        let ghost held = self.input;
                        apply_report(device, &mut self.input, frame.body);
                        proof {
                            lemma_report_moves_axes(before, held, frame.body@);
                        }
                        self.reports_seen = self.reports_seen + 1;
                        Ok(HidEvent::Report { seq: frame.seq, jump, body: frame.body })
                    },
                    None => Ok(HidEvent::EarlyReport { seq: frame.seq, jump }),
                }
            },
            HidOp::Unbind => Ok(HidEvent::Unbind { body: frame.body }),
            op => Ok(HidEvent::Unhandled { op }),
        }
    }
}

/// How a report shows up in the trace.
#[derive(Clone, Copy, Debug, PartialEq, Eq, Structural)]
pub enum ReportTrace {
    /// With all its bytes.
    Dump,
    /// As the rate of reports so far.
    Rate,
    /// Not at all.
    Skip,
}

/// Decides how a report shows up in the trace: the first five in full, later
/// ones at most once a second. `reports_seen` counts this report.
pub fn report_trace(reports_seen: u64, millis_since_last: u64) -> (t: ReportTrace)
    ensures
        t == if reports_seen <= 5 {
            ReportTrace::Dump
        } else if millis_since_last >= 1000 {
            ReportTrace::Rate
        } else {
            ReportTrace::Skip
        },
{
    if reports_seen <= 5 {
        ReportTrace::Dump
    } else if millis_since_last >= 1000 {
        ReportTrace::Rate
    } else {
        ReportTrace::Skip
    }
}

/// What an envelope asks of a log-writing receiver.
pub enum SourceEvent<'a> {
    /// Nothing to do.
    Ignored,
    /// The sender has bound the device.
    BindAck { meta: &'a [u8], descriptor: &'a [u8] },
    /// A report was logged; `trace` says that it is among the first five.
    Report { seq: u16, body: &'a [u8], trace: bool },
    /// The sender has ended the binding.
    Unbind,
}

/// Model of a `SourceEvent`.
pub enum SourceStep {
    Ignored,
    BindAck { meta: Seq<u8>, descriptor: Seq<u8> },
    Report { seq: u16, body: Seq<u8>, trace: bool },
    Unbind,
}

impl<'a> View for SourceEvent<'a> {
    type V = SourceStep;

    open spec fn view(&self) -> SourceStep {
        match *self {
            SourceEvent::Ignored => SourceStep::Ignored,
            SourceEvent::BindAck { meta, descriptor } => SourceStep::BindAck {
                meta: meta@,
                descriptor: descriptor@,
            },
            SourceEvent::Report { seq, body, trace } => SourceStep::Report {
                seq,
                body: body@,
                trace,
            },
            SourceEvent::Unbind => SourceStep::Unbind,
        }
    }
}

/// State of a log-writing receiver.
#[derive(Clone, Copy, Debug)]
pub struct SourceSession {
    pub got_bind_ack: bool,
    pub report_count: u32,
}

/// The log line of a report.
pub open spec fn report_line(seq: u16, body: Seq<u8>) -> Seq<char> {
    "report seq="@ + dec(seq as nat) + " bytes="@ + byte_list(body) + "\n"@
}

/// The log line of an acknowledged binding, with the device's name in quotes.
pub open spec fn bind_ack_line(kind: DeviceKind, quoted_name: Seq<char>) -> Seq<char> {
    "bind_ack kind="@ + kind_name(kind) + " name="@ + quoted_name + "\n"@
}

/// Logs an acknowledged binding, given the device's name in quotes.
pub fn log_bind_ack(log: &mut String, kind: DeviceKind, quoted_name: &str)
    ensures
        final(log)@ == old(log)@ + bind_ack_line(kind, quoted_name@),
        final(log)@ == old(log)@ + ("bind_ack kind="@ + (match kind {
            DeviceKind::Mouse => "Mouse"@,
            DeviceKind::Keyboard => "Keyboard"@,
            DeviceKind::Gamepad => "Gamepad"@,
            DeviceKind::Other => "Other"@,
        }) + " name="@ + quoted_name@ + "\n"@),
{
    push_str(log, "bind_ack kind=");
    push_str(log, kind_str(kind));
    push_str(log, " name=");
    push_str(log, quoted_name);
    push_str(log, "\n");
    assert(log@ =~= old(log)@ + bind_ack_line(kind, quoted_name@));
}

impl SourceSession {
    /// What an envelope asks of a log-writing receiver, the line it logs and
    /// the state behind it.
    pub open spec fn step(self, channel: Channel, payload: Seq<u8>) -> Result<
        (SourceStep, Seq<char>, SourceSession),
        HidError,
    > {
        if channel != Channel::Hid {
            Ok((SourceStep::Ignored, Seq::empty(), self))
        } else {
            match hid_outcome(payload) {
                Err(e) => Err(e),
                Ok((op, _, seq, body)) => match op {
                    HidOp::BindAck => match bind_ack_parts(body) {
                        None => Err(HidError::Short(body.len() as usize)),
                        Some((meta, descriptor)) => Ok(
                            (SourceStep::BindAck { meta, descriptor }, Seq::empty(), self),
                        ),
                    },
                    HidOp::ReportIn => Ok(
                        (
                            SourceStep::Report { seq, body, trace: self.report_count < 5 },
                            report_line(seq, body),
                            SourceSession { report_count: (self.report_count + 1) as u32, ..self },
                        ),
                    ),
                    HidOp::Unbind => Ok((SourceStep::Unbind, "unbind\n"@, self)),
                    _ => Ok((SourceStep::Ignored, Seq::empty(), self)),
                },
            }
        }
    }

    /// A receiver that has seen nothing.
    pub fn new() -> (s: SourceSession)
        ensures
            s == (SourceSession { got_bind_ack: false, report_count: 0 }),
    {
        SourceSession { got_bind_ack: false, report_count: 0 }
    }

    /// Handles one envelope and appends what it logs.
    pub fn on_envelope<'a>(
        &mut self,
        channel: Channel,
        payload: &'a [u8],
        log: &mut String,
    ) -> (r: Result<SourceEvent<'a>, HidError>)
        requires
            old(self).report_count < u32::MAX,
        ensures
            match r {
                Ok(ev) => old(self).step(channel, payload@) is Ok && {
                    let (step, line, after) = old(self).step(channel, payload@)->Ok_0;
                    ev@ == step && final(log)@ == old(log)@ + line && *final(self) == after
                },
                Err(e) => old(self).step(channel, payload@) == Err::<
                    (SourceStep, Seq<char>, SourceSession),
                    HidError,
                >(e) && *final(self) == *old(self) && final(log)@ == old(log)@,
            },
    {
        assert(log@ =~= old(log)@ + Seq::<char>::empty());
        if channel != Channel::Hid {
            return Ok(SourceEvent::Ignored);
        }
        let f = match HidFrame::parse(payload) {
            Ok(f) => f,
            Err(e) => return Err(e),
        };
        match f.op {
            HidOp::BindAck => match parse_bind_ack_body(f.body) {
                Ok((meta, descriptor)) => Ok(SourceEvent::BindAck { meta, descriptor }),
                Err(e) => Err(e),
            },
            HidOp::ReportIn => {
                push_str(log, "report seq=");
                push_dec(log, f.seq as u64);
                push_str(log, " bytes=");
                push_byte_list(log, f.body);
                push_str(log, "\n");
                assert(log@ =~= old(log)@ + report_line(f.seq, f.body@));
                let trace = self.report_count < 5;
                self.report_count = self.report_count + 1;
                Ok(SourceEvent::Report { seq: f.seq, body: f.body, trace })
            },
            HidOp::Unbind => {
                push_str(log, "unbind\n");
                Ok(SourceEvent::Unbind)
            },
            _ => Ok(SourceEvent::Ignored),
        }
    }

    /// Notes and logs the device that the sender has bound.
    pub fn bind_acknowledged(&mut self, kind: DeviceKind, name: &str, log: &mut String)
        ensures
            *final(self) == (SourceSession { got_bind_ack: true, ..*old(self) }),
            final(log)@ == old(log)@ + bind_ack_line(kind, quoted(name@)),
    {
        log_bind_ack(log, kind, quote(name).as_str());
        self.got_bind_ack = true;
    }

    /// The last line of the log.
    pub fn summarize(&self, log: &mut String)
        ensures
            final(log)@ == old(log)@ + self.summary_line(),
            final(log)@ == old(log)@ + ("summary bind_ack="@ + (if self.got_bind_ack {
                "true"@
            } else {
                "false"@
            }) + " reports="@ + dec(self.report_count as nat) + "\n"@),
    {
        push_str(log, "summary bind_ack=");
        push_bool(log, self.got_bind_ack);
        push_str(log, " reports=");
        push_dec(log, self.report_count as u64);
        push_str(log, "\n");
        assert(log@ =~= old(log)@ + self.summary_line());
    }

    /// The last line of the log.
    pub open spec fn summary_line(self) -> Seq<char> {
        "summary bind_ack="@ + bool_text(self.got_bind_ack) + " reports="@ + dec(
            self.report_count as nat,
        ) + "\n"@
    }
}

/// A UTC timestamp such as `1970-01-01T00:00:00.123456Z`.
pub open spec fn utc_text(
    year: u32,
    month: u32,
    day: u32,
    hour: u32,
    minute: u32,
    second: u32,
    micros: u32,
) -> Seq<char> {
    pad_front(dec(year as nat), 4, '0') + "-"@ + pad_front(dec(month as nat), 2, '0') + "-"@
        + pad_front(dec(day as nat), 2, '0') + "T"@ + pad_front(dec(hour as nat), 2, '0') + ":"@
        + pad_front(dec(minute as nat), 2, '0') + ":"@ + pad_front(dec(second as nat), 2, '0')
        + "."@ + pad_front(dec(micros as nat), 6, '0') + "Z"@
}

/// Formats a UTC timestamp for the trace.
pub fn utc_stamp(
    year: u32,
    month: u32,
    day: u32,
    hour: u32,
    minute: u32,
    second: u32,
    micros: u32,
) -> (s: String)
    ensures
        s@ == utc_text(year, month, day, hour, minute, second, micros),
        s@ == pad_front(dec(year as nat), 4, '0') + "-"@ + pad_front(dec(month as nat), 2, '0')
            + "-"@ + pad_front(dec(day as nat), 2, '0') + "T"@ + pad_front(
            dec(hour as nat),
            2,
            '0',
        ) + ":"@ + pad_front(dec(minute as nat), 2, '0') + ":"@ + pad_front(
            dec(second as nat),
            2,
            '0',
        ) + "."@ + pad_front(dec(micros as nat), 6, '0') + "Z"@,
{
    let mut s = String::new();
    push_dec_padded(&mut s, year as u64, 4);
    push_str(&mut s, "-");
    push_dec_padded(&mut s, month as u64, 2);
    push_str(&mut s, "-");
    push_dec_padded(&mut s, day as u64, 2);
    push_str(&mut s, "T");
    push_dec_padded(&mut s, hour as u64, 2);
    push_str(&mut s, ":");
    push_dec_padded(&mut s, minute as u64, 2);
    push_str(&mut s, ":");
    push_dec_padded(&mut s, second as u64, 2);
    push_str(&mut s, ".");
    push_dec_padded(&mut s, micros as u64, 6);
    push_str(&mut s, "Z");
    assert(s@ =~= utc_text(year, month, day, hour, minute, second, micros));
    s
}

/// A lost or reordered report is always noticed, except behind sequence number
/// 0; a report in sequence never counts as a jump.
pub proof fn lemma_drops_are_noticed(s: HidSession, bind_id: u8, seq: u16, body: Seq<u8>)
    requires
        s.device is Some,
    ensures
        s.step(Channel::Hid, hid_frame_bytes(HidOp::ReportIn, bind_id, seq, body)) matches Ok(
            HidStep::Report { jump, body: b, .. },
        ) && b == body && (jump is Some <==> s.last_seq != 0 && seq != next_seq(s.last_seq)),
{
    lemma_hid_frame_round_trip(HidOp::ReportIn, bind_id, seq, body);
}

/// The metadata and descriptor that a sender puts into a `BindAck` are the ones
/// the receiver hands on, whatever its state.
pub proof fn lemma_bind_ack_arrives(
    s: HidSession,
    bind_id: u8,
    seq: u16,
    meta: Seq<u8>,
    descriptor: Seq<u8>,
)
    requires
        meta.len() <= 0xFFFF,
    ensures
        s.step(
            Channel::Hid,
            hid_frame_bytes(HidOp::BindAck, bind_id, seq, bind_ack_body(meta, descriptor)),
        ) == Ok::<HidStep, HidError>(HidStep::BindAck { meta, descriptor }),
{
    lemma_hid_frame_round_trip(HidOp::BindAck, bind_id, seq, bind_ack_body(meta, descriptor));
    lemma_bind_ack_body_round_trip(meta, descriptor);
}

/// Whether an envelope carries an input report.
pub open spec fn is_report(channel: Channel, payload: Seq<u8>) -> bool {
    channel == Channel::Hid && payload.len() >= 4 && payload[0] == 0x10
}

/// How a report moves the axes of a device that already has events pending.
proof fn lemma_report_moves_axes(before: Seq<InputEvent>, held: InputState, body: Seq<u8>)
    ensures
        body.len() > 0 && body.len() != 8 ==> {
            let after = before + report_events(held, body);
            &&& rel_sum(after, 0x00) == rel_sum(before, 0x00) + twos_complement(body, 1)
            &&& rel_sum(after, 0x01) == rel_sum(before, 0x01) + twos_complement(body, 2)
            &&& rel_sum(after, 0x08) == rel_sum(before, 0x08) + twos_complement(body, 3)
        },
{
    if body.len() > 0 && body.len() != 8 {
        let events = mouse_events(held.buttons, body);
        lemma_mouse_moves_each_axis(held.buttons, body);
        lemma_rel_sum_concat(before, events, 0x00);
        lemma_rel_sum_concat(before, events, 0x01);
        lemma_rel_sum_concat(before, events, 0x08);
    }
}

/// What a bound receiver makes of each kind of frame: a report before the device
/// is open is dropped, an `Unbind` hands on its body, and frames that only
/// senders take are left alone. Other channels are none of its business.
pub proof fn lemma_hid_session_by_frame(
    s: HidSession,
    channel: Channel,
    op: HidOp,
    bind_id: u8,
    seq: u16,
    body: Seq<u8>,
)
    ensures
        ({
            let r = s.step(channel, hid_frame_bytes(op, bind_id, seq, body));
            &&& channel != Channel::Hid ==> r == Ok::<HidStep, HidError>(HidStep::Ignored)
            &&& channel == Channel::Hid && op == HidOp::ReportIn && s.device is Some ==> (
            r matches Ok(HidStep::Report { seq: n, body: b, .. }) && n == seq && b == body)
            &&& channel == Channel::Hid && op == HidOp::ReportIn && s.device is None ==> (
            r matches Ok(HidStep::EarlyReport { seq: n, jump }) && n == seq && jump == (if s.last_seq
                != 0 && seq != (s.last_seq + 1) % 0x1_0000 {
                Some(s.last_seq)
            } else {
                None
            }))
            &&& channel == Channel::Hid && op == HidOp::Unbind ==> r == Ok::<HidStep, HidError>(
                HidStep::Unbind { body },
            )
            &&& channel == Channel::Hid && (op == HidOp::Bind || op == HidOp::ReportOut || op
                == HidOp::ReportFeature) ==> r == Ok::<HidStep, HidError>(HidStep::Unhandled { op })
            &&& channel == Channel::Hid && op == HidOp::BindAck && (body.len() < 2 || body.len() < 2
                + body[0] * 0x100 + body[1]) ==> r == Err::<HidStep, HidError>(
                HidError::Short(body.len() as usize),
            )
        }),
{
    lemma_hid_frame_round_trip(op, bind_id, seq, body);
}

/// Sequence numbers count up by one and wrap.
pub proof fn lemma_next_seq(seq: u16)
    ensures
        next_seq(seq) == (seq + 1) % 0x1_0000,
{
}

/// What a log-writing receiver makes of each kind of frame: a report is counted
/// and logged with its number and bytes, the first five traced; an `Unbind` is
/// logged; everything else leaves log and count alone.
pub proof fn lemma_source_session_by_frame(
    s: SourceSession,
    channel: Channel,
    op: HidOp,
    bind_id: u8,
    seq: u16,
    body: Seq<u8>,
)
    requires
        s.report_count < u32::MAX,
    ensures
        ({
            let r = s.step(channel, hid_frame_bytes(op, bind_id, seq, body));
            let heard = channel == Channel::Hid;
            &&& heard && op == HidOp::ReportIn ==> (r matches Ok(
                (SourceStep::Report { seq: n, body: b, trace }, line, after),
            ) && n == seq && b == body && (trace <==> s.report_count < 5) && line == "report seq="@
                + dec(seq as nat) + " bytes="@ + byte_list(body) + "\n"@ && after.report_count
                == s.report_count + 1 && after.got_bind_ack == s.got_bind_ack)
            &&& heard && op == HidOp::Unbind ==> (r matches Ok((SourceStep::Unbind, line, after))
                && line == "unbind\n"@ && after == s)
            &&& !heard || op == HidOp::Bind || op == HidOp::ReportOut || op == HidOp::ReportFeature
                ==> (r matches Ok((SourceStep::Ignored, line, after)) && line.len() == 0 && after
                == s)
        }),
{
    lemma_hid_frame_round_trip(op, bind_id, seq, body);
}

/// The metadata and descriptor that a sender puts into a `BindAck` reach the
/// log-writing receiver too, which logs nothing before it has read them.
pub proof fn lemma_source_bind_ack_arrives(
    s: SourceSession,
    bind_id: u8,
    seq: u16,
    meta: Seq<u8>,
    descriptor: Seq<u8>,
)
    requires
        meta.len() <= 0xFFFF,
    ensures
        s.step(
            Channel::Hid,
            hid_frame_bytes(HidOp::BindAck, bind_id, seq, bind_ack_body(meta, descriptor)),
        ) matches Ok((SourceStep::BindAck { meta: m, descriptor: d }, line, after)) && m == meta && d
            == descriptor && line.len() == 0 && after == s,
{
    lemma_hid_frame_round_trip(HidOp::BindAck, bind_id, seq, bind_ack_body(meta, descriptor));
    lemma_bind_ack_body_round_trip(meta, descriptor);
}

} // verus!
