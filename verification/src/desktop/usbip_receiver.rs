//! The receiver's side of USB/IP, once the handshake is through and no kernel
//! takes the socket: packets are counted and logged.

use vstd::prelude::*;

use crate::bytes::be32_at;
use crate::desktop::usbip::{sim_urb_text, SimulatedAttach};
use crate::protocol::control::ControlMessage;
use crate::protocol::envelope::Channel;
use crate::protocol::hid::{
    hid_frame_bytes, hid_outcome, lemma_hid_frame_round_trip, HidFrame, HidOp,
};
use crate::protocol::usbip::{
    lemma_usbip_frame_round_trip, usbip_frame_bytes, UsbipError, UsbipFrame,
};
use crate::text::dec;

verus! {

/// Options of a USB/IP receive session.
pub struct UsbipReceiveOpts {
    pub target: String,
    pub busid: Option<String>,
    pub client_name: String,
    /// Write the transcript to this path instead of touching `vhci-hcd`.
    pub simulate_transcript: Option<String>,
    /// When simulating, also drive a script of URBs against the sender's pump,
    /// with this many extra bulk INs. `None` logs what the sender pushes.
    pub simulate_drive_urbs: Option<u32>,
}

/// What becomes of an attached device.
#[derive(Clone, Copy, Debug, PartialEq, Eq, Structural)]
pub enum AttachPlan {
    /// Drive a script of URBs with this many extra bulk INs.
    Drive(u32),
    /// Log what the sender pushes.
    Log,
    /// Hand the socket to the kernel.
    Kernel,
    /// The kernel cannot take it: its module is not loaded.
    NoKernel,
    /// The kernel cannot take a TLS session.
    NeedsTranscript,
}

/// Decides what becomes of an attached device.
pub fn plan_attach(
    tls: bool,
    transcript: bool,
    drive: Option<u32>,
    vhci_loaded: bool,
) -> (p: AttachPlan)
    ensures
        p == if transcript {
            match drive {
                Some(n) => AttachPlan::Drive(n),
                None => AttachPlan::Log,
            }
        } else if tls {
            AttachPlan::NeedsTranscript
        } else if vhci_loaded {
            AttachPlan::Kernel
        } else {
            AttachPlan::NoKernel
        },
{
    if transcript {
        match drive {
            Some(n) => AttachPlan::Drive(n),
            None => AttachPlan::Log,
        }
    } else if tls {
        AttachPlan::NeedsTranscript
    } else if vhci_loaded {
        AttachPlan::Kernel
    } else {
        AttachPlan::NoKernel
    }
}

/// What an envelope means to a logging receiver.
#[derive(Clone, Copy, Debug, PartialEq, Eq, Structural)]
pub enum LogEvent {
    /// A packet was logged.
    Logged,
    /// A control message, which may end the session.
    Control,
    /// The sender has unbound the device: the session ends.
    Unbound,
    /// Nothing.
    Ignored,
}

/// A logging receiver: the pretended attach and the packets so far.
#[derive(Debug)]
pub struct LogSession {
    pub attach: SimulatedAttach,
    /// Packets so far, modulo 2^32.
    pub frames: u32,
    /// Whether the session runs over TLS, where only USB/IP packets are heeded.
    pub tls: bool,
}

/// Whether a HID payload is the sender's `Unbind`. Anything else on the HID
/// channel has no place in a USB/IP session and is skipped; over TLS, so is
/// the `Unbind`.
pub open spec fn is_unbind(payload: Seq<u8>) -> bool {
    hid_outcome(payload) matches Ok((HidOp::Unbind, _, _, _))
}

/// The number of packets behind one more.
pub open spec fn next_frame(frames: u32) -> u32 {
    if frames == u32::MAX {
        0
    } else {
        (frames + 1) as u32
    }
}

impl LogSession {
    /// What an envelope means, and the line it leaves in the transcript.
    pub open spec fn step(self, channel: Channel, payload: Seq<u8>) -> Result<
        (LogEvent, Seq<char>, u32),
        UsbipError,
    > {
        match channel {
            Channel::Usbip => if payload.len() < 4 {
                Err(UsbipError::Short(payload.len() as usize))
            } else {
                Ok(
                    (
                        LogEvent::Logged,
                        sim_urb_text(
                            self.attach.port,
                            be32_at(payload, 0),
                            next_frame(self.frames),
                            (payload.len() - 4) as nat,
                        ),
                        next_frame(self.frames),
                    ),
                )
            },
            Channel::Control => Ok(
                (
                    if self.tls {
                        LogEvent::Ignored
                    } else {
                        LogEvent::Control
                    },
                    Seq::empty(),
                    self.frames,
                ),
            ),
            Channel::Hid => Ok(
                (
                    if !self.tls && is_unbind(payload) {
                        LogEvent::Unbound
                    } else {
                        LogEvent::Ignored
                    },
                    Seq::empty(),
                    self.frames,
                ),
            ),
            Channel::Keepalive => Ok((LogEvent::Ignored, Seq::empty(), self.frames)),
        }
    }

    /// A logging receiver before its first packet.
    pub fn new(attach: SimulatedAttach, tls: bool) -> (s: LogSession)
        ensures
            s.attach == attach,
            s.frames == 0,
            s.tls == tls,
    {
        LogSession { attach, frames: 0, tls }
    }

    /// Handles one envelope and appends what it leaves in the transcript.
    pub fn on_envelope(&mut self, channel: Channel, payload: &[u8], log: &mut String) -> (r: Result<
        LogEvent,
        UsbipError,
    >)
        ensures
            final(self).attach == old(self).attach,
            final(self).tls == old(self).tls,
            match r {
                Ok(ev) => old(self).step(channel, payload@) is Ok && {
                    let (event, line, frames) = old(self).step(channel, payload@)->Ok_0;
                    ev == event && final(log)@ == old(log)@ + line && final(self).frames == frames
                },
                Err(e) => old(self).step(channel, payload@) == Err::<
                    (LogEvent, Seq<char>, u32),
                    UsbipError,
                >(e) && final(self).frames == old(self).frames && final(log)@ == old(log)@,
            },
    {
        assert(log@ =~= old(log)@ + Seq::<char>::empty());
        match channel {
            Channel::Usbip => {
                let frame = match UsbipFrame::parse(payload) {
                    Ok(f) => f,
                    Err(e) => return Err(e),
                };
                self.frames = if self.frames == u32::MAX {
                    0
                } else {
                    self.frames + 1
                };
                self.attach.record_urb(frame.import_id, self.frames, frame.raw.len(), log);
                Ok(LogEvent::Logged)
            },
            Channel::Control => if self.tls {
                Ok(LogEvent::Ignored)
            } else {
                Ok(LogEvent::Control)
            },
            Channel::Hid => match HidFrame::parse(payload) {
                Ok(frame) => if !self.tls && frame.op == HidOp::Unbind {
                    Ok(LogEvent::Unbound)
                } else {
                    Ok(LogEvent::Ignored)
                },
                Err(_) => Ok(LogEvent::Ignored),
            },
            Channel::Keepalive => Ok(LogEvent::Ignored),
        }
    }
}

/// Whether a control message ends a logging session: only errors do.
pub fn ends_session(m: &ControlMessage) -> (r: bool)
    ensures
        r == (m is Error),
{
    match m {
        ControlMessage::Error { .. } => true,
        _ => false,
    }
}

/// Every packet that a sender frames leaves exactly one line, with the import
/// id and the length it was sent with.
pub proof fn lemma_packet_is_logged(s: LogSession, import_id: u32, raw: Seq<u8>)
    ensures
        s.step(Channel::Usbip, usbip_frame_bytes(import_id, raw)) == Ok::<
            (LogEvent, Seq<char>, u32),
            UsbipError,
        >(
            (
                LogEvent::Logged,
                sim_urb_text(s.attach.port, import_id, next_frame(s.frames), raw.len()),
                next_frame(s.frames),
            ),
        ),
{
    lemma_usbip_frame_round_trip(import_id, raw, raw);
}

/// The packet counter behind `n` more packets.
pub open spec fn frames_after(frames: u32, n: nat) -> u32
    decreases n,
{
    if n == 0 {
        frames
    } else {
        next_frame(frames_after(frames, (n - 1) as nat))
    }
}

/// The counter is the number of packets modulo 2^32.
pub proof fn lemma_frames_are_counted(frames: u32, n: nat)
    ensures
        frames_after(frames, n) == (frames + n) % 0x1_0000_0000,
    decreases n,
{
    if n > 0 {
        lemma_frames_are_counted(frames, (n - 1) as nat);
    }
}

/// The `Unbind` that a sender frames ends a session without TLS, whatever its
/// binding and reason.
pub proof fn lemma_unbind_ends_session(s: LogSession, bind_id: u8, seq: u16, reason: Seq<u8>)
    requires
        !s.tls,
    ensures
        s.step(Channel::Hid, hid_frame_bytes(HidOp::Unbind, bind_id, seq, reason)) == Ok::<
            (LogEvent, Seq<char>, u32),
            UsbipError,
        >((LogEvent::Unbound, Seq::empty(), s.frames)),
{
    lemma_hid_frame_round_trip(HidOp::Unbind, bind_id, seq, reason);
}

/// Over TLS nothing but a USB/IP packet changes the session or leaves a line.
pub proof fn lemma_tls_heeds_packets_only(s: LogSession, channel: Channel, payload: Seq<u8>)
    requires
        s.tls,
        channel != Channel::Usbip,
    ensures
        s.step(channel, payload) == Ok::<(LogEvent, Seq<char>, u32), UsbipError>(
            (LogEvent::Ignored, Seq::empty(), s.frames),
        ),
{
}

/// What a logging receiver without TLS makes of each envelope: a USB/IP payload
/// leaves a line with its import id, its number and the length behind the id,
/// unless it is too short to have one; a control message may end the session;
/// so does an `Unbind`; nothing else does anything.
pub proof fn lemma_log_session_by_channel(s: LogSession, payload: Seq<u8>)
    requires
        !s.tls,
    ensures
        payload.len() < 4 ==> s.step(Channel::Usbip, payload) == Err::<
            (LogEvent, Seq<char>, u32),
            UsbipError,
        >(UsbipError::Short(payload.len() as usize)),
        payload.len() >= 4 ==> (s.step(Channel::Usbip, payload) matches Ok(
            (LogEvent::Logged, line, frames),
        ) && frames == (s.frames + 1) % 0x1_0000_0000 && line == "sim-urb port="@ + dec(
            s.attach.port as nat,
        ) + " import_id="@ + dec(be32_at(payload, 0) as nat) + " seq="@ + dec(frames as nat)
            + " bytes="@ + dec((payload.len() - 4) as nat) + "\n"@),
        s.step(Channel::Control, payload) == Ok::<(LogEvent, Seq<char>, u32), UsbipError>(
            (LogEvent::Control, Seq::empty(), s.frames),
        ),
        s.step(Channel::Keepalive, payload) == Ok::<(LogEvent, Seq<char>, u32), UsbipError>(
            (LogEvent::Ignored, Seq::empty(), s.frames),
        ),
        s.step(Channel::Hid, payload) == Ok::<(LogEvent, Seq<char>, u32), UsbipError>(
            (
                if payload.len() >= 4 && payload[0] == 0x20 {
                    LogEvent::Unbound
                } else {
                    LogEvent::Ignored
                },
                Seq::empty(),
                s.frames,
            ),
        ),
{
}

/// USB/IP packets are logged over TLS as they are without.
pub proof fn lemma_tls_logs_packets_alike(s: LogSession, plain: LogSession, payload: Seq<u8>)
    requires
        s.attach == plain.attach,
        s.frames == plain.frames,
    ensures
        s.step(Channel::Usbip, payload) == plain.step(Channel::Usbip, payload),
{
}

} // verus!
