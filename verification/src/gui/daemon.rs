//! The receive daemon as the window sees it.
//!
//! The window process stays unprivileged: it runs `zerowire-cli receive` and
//! reads its output line by line. A few substrings mark transitions; every
//! other line changes nothing.

use vstd::prelude::*;

use crate::gui::pairing::PairingPayload;
use crate::protocol::control::{clone_devices, devices_model, DeviceModel, DeviceSummary};
use crate::scan::{
    after_text, behind, char_lists, contains_text, find_text, split_words, stands_at, words,
};
use crate::text::{chars_of, push_str, string_of, texts};

verus! {

/// What the daemon is doing.
#[derive(Debug, PartialEq, Eq)]
pub enum DaemonStatus {
    Idle,
    Waiting,
    Connected { sender: String },
    Error(String),
}

/// Model of a `DaemonStatus`.
pub enum StatusModel {
    Idle,
    Waiting,
    Connected { sender: Seq<char> },
    Error(Seq<char>),
}

impl View for DaemonStatus {
    type V = StatusModel;

    open spec fn view(&self) -> StatusModel {
        match *self {
            DaemonStatus::Idle => StatusModel::Idle,
            DaemonStatus::Waiting => StatusModel::Waiting,
            DaemonStatus::Connected { sender } => StatusModel::Connected { sender: sender@ },
            DaemonStatus::Error(e) => StatusModel::Error(e@),
        }
    }
}

impl Clone for DaemonStatus {
    fn clone(&self) -> (r: DaemonStatus)
        ensures
            r@ == self@,
    {
        match self {
            DaemonStatus::Idle => DaemonStatus::Idle,
            DaemonStatus::Waiting => DaemonStatus::Waiting,
            DaemonStatus::Connected { sender } => DaemonStatus::Connected {
                sender: sender.clone(),
            },
            DaemonStatus::Error(e) => DaemonStatus::Error(e.clone()),
        }
    }
}

impl Default for DaemonStatus {
    fn default() -> (s: DaemonStatus)
        ensures
            s@ == StatusModel::Idle,
    {
        DaemonStatus::Idle
    }
}

/// The sender's name in a line that reports a handshake: the word behind the
/// first `name=` behind the first `HELLO_ACK`.
pub open spec fn acknowledged_name(line: Seq<char>) -> Option<Seq<char>> {
    match behind(line, "HELLO_ACK"@) {
        None => None,
        Some(rest) => match behind(rest, "name="@) {
            None => None,
            Some(rest) => if words(rest).len() == 0 {
                None
            } else {
                Some(words(rest)[0])
            },
        },
    }
}

/// The status behind a line of the daemon's output.
pub open spec fn status_after(status: StatusModel, line: Seq<char>) -> StatusModel {
    if acknowledged_name(line) is Some {
        StatusModel::Connected { sender: acknowledged_name(line)->Some_0 }
    } else if contains_text(line, "session ended"@) {
        StatusModel::Waiting
    } else if contains_text(line, "ATTACH_DENIED"@) {
        StatusModel::Error("Receiver denied attach (busid mismatch?)"@)
    } else if contains_text(line, "ERROR"@) {
        StatusModel::Error(line)
    } else {
        status
    }
}

fn line_holds(line: &[char], pat: &str) -> (r: bool)
    ensures
        r == contains_text(line@, pat@),
{
    let p = chars_of(pat);
    match find_text(line, p.as_slice()) {
        Some(i) => {
            assert(stands_at(line@, pat@, i as int));
            true
        },
        None => false,
    }
}

fn name_in(line: &[char]) -> (r: Option<String>)
    ensures
        match r {
            Some(n) => acknowledged_name(line@) == Some(n@),
            None => acknowledged_name(line@) is None,
        },
{
    let ack = chars_of("HELLO_ACK");
    let key = chars_of("name=");
    let rest = match after_text(line, ack.as_slice()) {
        Some(rest) => rest,
        None => return None,
    };
    let rest = match after_text(rest.as_slice(), key.as_slice()) {
        Some(rest) => rest,
        None => return None,
    };
    let w = split_words(rest.as_slice());
    assert(char_lists(w@).len() == w@.len());
    if w.len() == 0 {
        return None;
    }
    assert(words(rest@)[0] == w@[0]@);
    Some(string_of(w[0].as_slice()))
}

/// Takes one line of the daemon's output.
pub fn update_from_line(status: &mut DaemonStatus, line: &str)
    ensures
        final(status)@ == status_after(old(status)@, line@),
{
    let c = chars_of(line);
    if let Some(sender) = name_in(c.as_slice()) {
        *status = DaemonStatus::Connected { sender };
    } else if line_holds(c.as_slice(), "session ended") {
        *status = DaemonStatus::Waiting;
    } else if line_holds(c.as_slice(), "ATTACH_DENIED") {
        *status = DaemonStatus::Error("Receiver denied attach (busid mismatch?)".to_owned());
    } else if line_holds(c.as_slice(), "ERROR") {
        *status = DaemonStatus::Error(line.to_owned());
    }
}

/// The status once the daemon's output has ended: an error stays.
pub open spec fn status_at_end(status: StatusModel) -> StatusModel {
    match status {
        StatusModel::Waiting => StatusModel::Idle,
        StatusModel::Connected { .. } => StatusModel::Idle,
        other => other,
    }
}

/// Notes that the daemon's output has ended.
pub fn finalize_to_idle(status: &mut DaemonStatus)
    ensures
        final(status)@ == status_at_end(old(status)@),
{
    let ended = match status {
        DaemonStatus::Waiting => true,
        DaemonStatus::Connected { .. } => true,
        _ => false,
    };
    if ended {
        *status = DaemonStatus::Idle;
    }
}

/// The arguments of the daemon: receive over USB/IP under the pairing code, at
/// the given target if there is one.
pub open spec fn daemon_args_model(code: Seq<char>, target: Option<Seq<char>>) -> Seq<Seq<char>> {
    seq!["receive"@, "--mode"@, "usbip"@, "--psk"@, code] + match target {
        Some(t) => seq!["--target"@, t],
        None => Seq::empty(),
    }
}

/// The arguments of the daemon.
pub fn daemon_args(code: &str, target: Option<&str>) -> (v: Vec<String>)
    ensures
        texts(v@) == daemon_args_model(
            code@,
            match target {
                Some(t) => Some(t@),
                None => None,
            },
        ),
{
    let mut v: Vec<String> = Vec::new();
    v.push("receive".to_owned());
    v.push("--mode".to_owned());
    v.push("usbip".to_owned());
    v.push("--psk".to_owned());
    v.push(code.to_owned());
    if let Some(t) = target {
        v.push("--target".to_owned());
        v.push(t.to_owned());
    }
    assert(texts(v@) =~= daemon_args_model(
        code@,
        match target {
            Some(t) => Some(t@),
            None => None,
        },
    ));
    v
}

/// What the window knows of the daemon it has started.
#[derive(Debug)]
pub struct DaemonHandle {
    pub status: DaemonStatus,
    /// The devices that the sender has advertised.
    pub devices: Vec<DeviceSummary>,
}

impl DaemonHandle {
    /// A daemon that is being started for a pairing, and its arguments.
    pub fn spawn(payload: &PairingPayload, target: Option<&str>) -> (r: (
        DaemonHandle,
        Vec<String>,
    ))
        ensures
            r.0.status@ == StatusModel::Waiting,
            devices_model(r.0.devices@) == Seq::<DeviceModel>::empty(),
            texts(r.1@) == daemon_args_model(
                payload.code@,
                match target {
                    Some(t) => Some(t@),
                    None => None,
                },
            ),
    {
        let h = DaemonHandle { status: DaemonStatus::Waiting, devices: Vec::new() };
        assert(devices_model(h.devices@) =~= Seq::<DeviceModel>::empty());
        (h, daemon_args(payload.code.as_str(), target))
    }

    /// What the daemon is doing.
    pub fn status(&self) -> (s: DaemonStatus)
        ensures
            s@ == self.status@,
    {
        self.status.clone()
    }

    /// The devices that the sender has advertised.
    pub fn devices(&self) -> (v: Vec<DeviceSummary>)
        ensures
            devices_model(v@) == devices_model(self.devices@),
    {
        clone_devices(self.devices.as_slice())
    }

    /// Notes that the daemon was stopped.
    pub fn stop(&mut self)
        ensures
            final(self).status@ == StatusModel::Idle,
            final(self).devices@ == old(self).devices@,
    {
        self.status = DaemonStatus::Idle;
    }
}

/// The title and the text that the window shows for a status.
pub open spec fn status_text(status: StatusModel, endpoint: Seq<char>) -> (Seq<char>, Seq<char>) {
    match status {
        StatusModel::Idle => ("Idle"@, "Click \"Wait for phone\" to start listening."@),
        StatusModel::Waiting => (
            "Waiting for phone…"@,
            "Scan the QR with the zerowire Android app, or connect manually to "@ + endpoint + "."@,
        ),
        StatusModel::Connected { sender } => ("Connected"@, "Phone: "@ + sender),
        StatusModel::Error(msg) => ("Error"@, msg),
    }
}

/// The title and the text that the window shows for a status.
pub fn describe_status(status: &DaemonStatus, endpoint: &str) -> (r: (String, String))
    ensures
        (r.0@, r.1@) == status_text(status@, endpoint@),
{
    match status {
        DaemonStatus::Idle => (
            "Idle".to_owned(),
            "Click \"Wait for phone\" to start listening.".to_owned(),
        ),
        DaemonStatus::Waiting => {
            let mut s = String::new();
            push_str(&mut s, "Scan the QR with the zerowire Android app, or connect manually to ");
            push_str(&mut s, endpoint);
            push_str(&mut s, ".");
            assert(s@ =~= "Scan the QR with the zerowire Android app, or connect manually to "@
                + endpoint@ + "."@);
            ("Waiting for phone…".to_owned(), s)
        },
        DaemonStatus::Connected { sender } => {
            let mut s = String::new();
            push_str(&mut s, "Phone: ");
            push_str(&mut s, sender.as_str());
            assert(s@ =~= "Phone: "@ + sender@);
            ("Connected".to_owned(), s)
        },
        DaemonStatus::Error(msg) => ("Error".to_owned(), msg.clone()),
    }
}

/// Once the output has ended the daemon is never shown as running: it is idle
/// or has failed. Ending twice, on both output streams, changes nothing more.
pub proof fn lemma_end_is_final(status: StatusModel)
    ensures
        status_at_end(status) is Idle || status_at_end(status) is Error,
        status_at_end(status_at_end(status)) == status_at_end(status),
{
}

/// What a line of output does: one that reports a handshake shows who has
/// connected; else one that reports the end of a session goes back to waiting;
/// else a denied attach or any other error is shown; all other lines change
/// nothing.
pub proof fn lemma_status_by_line(status: StatusModel, line: Seq<char>)
    ensures
        ({
            let after = status_after(status, line);
            let named = acknowledged_name(line);
            let ended = contains_text(line, "session ended"@);
            let denied = contains_text(line, "ATTACH_DENIED"@);
            let error = contains_text(line, "ERROR"@);
            &&& named matches Some(n) ==> after == (StatusModel::Connected { sender: n })
            &&& named is None && ended ==> after == StatusModel::Waiting
            &&& named is None && !ended && denied ==> after == StatusModel::Error(
                "Receiver denied attach (busid mismatch?)"@,
            )
            &&& named is None && !ended && !denied && error ==> after == StatusModel::Error(line)
            &&& named is None && !ended && !denied && !error ==> after == status
        }),
{
}

/// Who has connected: the first word behind `name=` in a line with `HELLO_ACK`
/// in front of it. A line without either, or without a word there, tells
/// nothing.
pub proof fn lemma_connected_name(line: Seq<char>)
    ensures
        !contains_text(line, "HELLO_ACK"@) ==> acknowledged_name(line) is None,
        behind(line, "HELLO_ACK"@) matches Some(tail) ==> {
            &&& !contains_text(tail, "name="@) ==> acknowledged_name(line) is None
            &&& behind(tail, "name="@) matches Some(rest) ==> {
                &&& words(rest).len() == 0 ==> acknowledged_name(line) is None
                &&& words(rest).len() > 0 ==> acknowledged_name(line) == Some(words(rest)[0])
            }
        },
{
}

/// What becomes of each status once the output has ended: a running daemon goes
/// idle, an error stays to be seen.
pub proof fn lemma_end_keeps_errors(e: Seq<char>, sender: Seq<char>)
    ensures
        status_at_end(StatusModel::Error(e)) == StatusModel::Error(e),
        status_at_end(StatusModel::Waiting) == StatusModel::Idle,
        status_at_end(StatusModel::Connected { sender }) == StatusModel::Idle,
        status_at_end(StatusModel::Idle) == StatusModel::Idle,
{
}

/// The daemon is started with the pairing's own code, and with the target only
/// where there is one.
pub proof fn lemma_daemon_arguments(code: Seq<char>, target: Seq<char>)
    ensures
        daemon_args_model(code, None) == seq!["receive"@, "--mode"@, "usbip"@, "--psk"@, code],
        daemon_args_model(code, Some(target)) == seq![
            "receive"@,
            "--mode"@,
            "usbip"@,
            "--psk"@,
            code,
            "--target"@,
            target,
        ],
{
    assert(daemon_args_model(code, None) =~= seq![
        "receive"@,
        "--mode"@,
        "usbip"@,
        "--psk"@,
        code,
    ]);
    assert(daemon_args_model(code, Some(target)) =~= seq![
        "receive"@,
        "--mode"@,
        "usbip"@,
        "--psk"@,
        code,
        "--target"@,
        target,
    ]);
}

/// What the window shows: the endpoint while it waits, the sender while it is
/// connected, the message of an error as it is.
pub proof fn lemma_status_is_shown(endpoint: Seq<char>, sender: Seq<char>, e: Seq<char>)
    ensures
        status_text(StatusModel::Idle, endpoint) == (
            "Idle"@,
            "Click \"Wait for phone\" to start listening."@,
        ),
        status_text(StatusModel::Waiting, endpoint).0 == "Waiting for phone…"@,
        status_text(StatusModel::Waiting, endpoint).1
            == "Scan the QR with the zerowire Android app, or connect manually to "@ + endpoint
            + "."@,
        status_text(StatusModel::Connected { sender }, endpoint) == (
            "Connected"@,
            "Phone: "@ + sender,
        ),
        status_text(StatusModel::Error(e), endpoint) == ("Error"@, e),
{
}

} // verus!
