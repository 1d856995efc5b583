//! The receiver's side of the control handshake.
//!
//! `HELLO`, `LIST_DEVICES`, `ATTACH`: the receiver sends one message after the
//! other and every answer decides what comes next. `ClientSession` is where a
//! handshake stands; its owner sends the messages and hands back the answers.

use vstd::prelude::*;

use crate::protocol::control::{
    devices_model, ControlMessage, ControlModel, DeviceModel, DeviceSummary,
};
use crate::protocol::envelope::{envelope_bytes, Channel, Envelope, EnvelopeError, MAX_PAYLOAD};
use crate::protocol::hid::{hid_frame_bytes, BindRequest, HidFrame, HidOp};
use crate::protocol::usbip::{AttachModel, UsbipAttachInfo};
use crate::text::{opt_text, same_text, texts};

verus! {

/// What the command-line receiver calls itself.
pub const CLIENT_NAME: &'static str = "zerowire-cli/0.2.0";

/// What a handshake is for.
#[derive(Clone, Copy, Debug, PartialEq, Eq, Structural)]
pub enum ClientKind {
    /// HID fast lane into a virtual device.
    HidReceive,
    /// HID fast lane into a log file.
    HidSource,
    /// USB/IP over plain TCP.
    Usbip,
    /// USB/IP over TLS.
    UsbipTls,
}

/// Where a handshake stands.
#[derive(Clone, Copy, Debug, PartialEq, Eq, Structural)]
pub enum ClientPhase {
    /// `HELLO` was sent.
    AwaitHello,
    /// `LIST_DEVICES` was sent.
    AwaitDevices,
    /// `ATTACH` was sent.
    AwaitAttach,
    /// The sender has attached the device.
    Attached,
}

/// What to do next.
#[derive(Debug)]
pub enum ClientAction {
    /// Send this message.
    Send(ControlMessage),
    /// Bind the device with this busid on the HID channel.
    Bind { busid: String },
    /// The device is attached for USB/IP.
    Attached { info: UsbipAttachInfo },
}

/// Model of a `ClientAction`.
pub enum ActionModel {
    Send(ControlModel),
    Bind { busid: Seq<char> },
    Attached { info: AttachModel },
}

impl View for ClientAction {
    type V = ActionModel;

    open spec fn view(&self) -> ActionModel {
        match *self {
            ClientAction::Send(m) => ActionModel::Send(m@),
            ClientAction::Bind { busid } => ActionModel::Bind { busid: busid@ },
            ClientAction::Attached { info } => ActionModel::Attached { info: info@ },
        }
    }
}

/// Why a handshake fails.
#[derive(Debug)]
pub enum ClientError {
    /// The sender answered `HELLO` with an error.
    Refused { code: String, message: String },
    /// The sender answered `HELLO` with something else.
    UnexpectedHelloReply,
    /// The sender answered `LIST_DEVICES` with something else.
    NotADeviceList,
    /// The sender does not expose the wanted device.
    NoSuchBusid,
    /// The sender exposes no HID device.
    NoHidDevice,
    /// The sender exposes no device at all.
    NoDevice,
    /// The sender denied the attach.
    Denied { busid: String, reason: String },
    /// The sender answered `ATTACH` with something else.
    UnexpectedAttachReply,
}

/// Model of a `ClientError`.
pub enum ClientErrorModel {
    Refused { code: Seq<char>, message: Seq<char> },
    UnexpectedHelloReply,
    NotADeviceList,
    NoSuchBusid,
    NoHidDevice,
    NoDevice,
    Denied { busid: Seq<char>, reason: Seq<char> },
    UnexpectedAttachReply,
}

impl View for ClientError {
    type V = ClientErrorModel;

    open spec fn view(&self) -> ClientErrorModel {
        match *self {
            ClientError::Refused { code, message } => ClientErrorModel::Refused {
                code: code@,
                message: message@,
            },
            ClientError::UnexpectedHelloReply => ClientErrorModel::UnexpectedHelloReply,
            ClientError::NotADeviceList => ClientErrorModel::NotADeviceList,
            ClientError::NoSuchBusid => ClientErrorModel::NoSuchBusid,
            ClientError::NoHidDevice => ClientErrorModel::NoHidDevice,
            ClientError::NoDevice => ClientErrorModel::NoDevice,
            ClientError::Denied { busid, reason } => ClientErrorModel::Denied {
                busid: busid@,
                reason: reason@,
            },
            ClientError::UnexpectedAttachReply => ClientErrorModel::UnexpectedAttachReply,
        }
    }
}

/// The first device with the given busid.
pub open spec fn first_with_busid(devs: Seq<DeviceModel>, busid: Seq<char>) -> Option<DeviceModel>
    decreases devs.len(),
{
    if devs.len() == 0 {
        None
    } else if devs[0].busid == busid {
        Some(devs[0])
    } else {
        first_with_busid(devs.skip(1), busid)
    }
}

/// The index of the first device with the given busid, or the length where
/// there is none.
pub open spec fn busid_index(devs: Seq<DeviceModel>, busid: Seq<char>) -> nat
    decreases devs.len(),
{
    if devs.len() == 0 || devs[0].busid == busid {
        0
    } else {
        1 + busid_index(devs.skip(1), busid)
    }
}

/// The first HID device.
pub open spec fn first_hid(devs: Seq<DeviceModel>) -> Option<DeviceModel>
    decreases devs.len(),
{
    if devs.len() == 0 {
        None
    } else if devs[0].is_hid {
        Some(devs[0])
    } else {
        first_hid(devs.skip(1))
    }
}

/// The device that a HID receiver takes: the wanted one, or the first HID
/// device where none is wanted.
pub open spec fn hid_choice(devs: Seq<DeviceModel>, busid: Option<Seq<char>>) -> Result<
    DeviceModel,
    ClientErrorModel,
> {
    match busid {
        Some(b) => match first_with_busid(devs, b) {
            Some(d) => Ok(d),
            None => Err(ClientErrorModel::NoSuchBusid),
        },
        None => match first_hid(devs) {
            Some(d) => Ok(d),
            None => Err(ClientErrorModel::NoHidDevice),
        },
    }
}

/// The device that a USB/IP receiver takes: the wanted one, or the first one
/// where none is wanted.
pub open spec fn usbip_choice(devs: Seq<DeviceModel>, busid: Option<Seq<char>>) -> Result<
    DeviceModel,
    ClientErrorModel,
> {
    match busid {
        Some(b) => match first_with_busid(devs, b) {
            Some(d) => Ok(d),
            None => Err(ClientErrorModel::NoSuchBusid),
        },
        None => if devs.len() == 0 {
            Err(ClientErrorModel::NoDevice)
        } else {
            Ok(devs[0])
        },
    }
}

/// Model of an optional text.
pub open spec fn opt_str(o: Option<&str>) -> Option<Seq<char>> {
    match o {
        Some(s) => Some(s@),
        None => None,
    }
}

/// The index of the first device with the given busid.
fn position_of(devs: &[DeviceSummary], busid: &str) -> (r: Option<usize>)
    ensures
        match r {
            Some(i) => i < devs@.len() && first_with_busid(devices_model(devs@), busid@) == Some(
                devs@[i as int]@,
            ),
            None => first_with_busid(devices_model(devs@), busid@) is None,
        },
        match r {
            Some(i) => devs@[i as int].busid@ == busid@ && forall|j: int|
                0 <= j < i ==> (#[trigger] devs@[j]).busid@ != busid@,
            None => forall|j: int|
                0 <= j < devs@.len() ==> (#[trigger] devs@[j]).busid@ != busid@,
        },
{
    let ghost all = devices_model(devs@);
    let mut i: usize = 0;
    assert(all.skip(0) =~= all);
    while i < devs.len()
        invariant
            i <= devs@.len(),
            all == devices_model(devs@),
            first_with_busid(all, busid@) == first_with_busid(all.skip(i as int), busid@),
            forall|j: int| 0 <= j < i ==> (#[trigger] devs@[j]).busid@ != busid@,
        decreases devs@.len() - i,
    {
        if same_text(devs[i].busid.as_str(), busid) {
            return Some(i);
        }
        assert(all.skip(i as int).skip(1) =~= all.skip(i + 1));
        i += 1;
    }
    None
}

/// Chooses the device for the HID fast lane.
pub fn pick_hid_device(devs: &[DeviceSummary], busid: Option<&str>) -> (r: Result<
    DeviceSummary,
    ClientError,
>)
    ensures
        match r {
            Ok(d) => hid_choice(devices_model(devs@), opt_str(busid)) == Ok::<
                DeviceModel,
                ClientErrorModel,
            >(d@),
            Err(e) => hid_choice(devices_model(devs@), opt_str(busid)) == Err::<
                DeviceModel,
                ClientErrorModel,
            >(e@),
        },
        busid matches Some(b) ==> match r {
            Ok(d) => exists|k: int|
                0 <= k < devs@.len() && d@ == (#[trigger] devs@[k])@ && d.busid@ == b@ && forall|
                    j: int,
                |
                    0 <= j < k ==> (#[trigger] devs@[j]).busid@ != b@,
            Err(e) => e@ == ClientErrorModel::NoSuchBusid && forall|j: int|
                0 <= j < devs@.len() ==> (#[trigger] devs@[j]).busid@ != b@,
        },
        busid is None ==> match r {
            Ok(d) => exists|k: int|
                0 <= k < devs@.len() && d@ == (#[trigger] devs@[k])@ && d.is_hid && forall|j: int|
                    0 <= j < k ==> !(#[trigger] devs@[j]).is_hid,
            Err(e) => e@ == ClientErrorModel::NoHidDevice && forall|j: int|
                0 <= j < devs@.len() ==> !(#[trigger] devs@[j]).is_hid,
        },
{
    if let Some(b) = busid {
        return match position_of(devs, b) {
            Some(i) => Ok(devs[i].clone()),
            None => Err(ClientError::NoSuchBusid),
        };
    }
    let ghost all = devices_model(devs@);
    let mut i: usize = 0;
    assert(all.skip(0) =~= all);
    while i < devs.len()
        invariant
            i <= devs@.len(),
            busid is None,
            all == devices_model(devs@),
            first_hid(all) == first_hid(all.skip(i as int)),
            forall|j: int| 0 <= j < i ==> !(#[trigger] devs@[j]).is_hid,
        decreases devs@.len() - i,
    {
        if devs[i].is_hid {
            return Ok(devs[i].clone());
        }
        assert(all.skip(i as int).skip(1) =~= all.skip(i + 1));
        i += 1;
    }
    Err(ClientError::NoHidDevice)
}

/// Chooses the device for USB/IP.
pub fn pick_device(devs: &[DeviceSummary], busid: Option<&str>) -> (r: Result<
    DeviceSummary,
    ClientError,
>)
    ensures
        match r {
            Ok(d) => usbip_choice(devices_model(devs@), opt_str(busid)) == Ok::<
                DeviceModel,
                ClientErrorModel,
            >(d@),
            Err(e) => usbip_choice(devices_model(devs@), opt_str(busid)) == Err::<
                DeviceModel,
                ClientErrorModel,
            >(e@),
        },
        busid matches Some(b) ==> match r {
            Ok(d) => exists|k: int|
                0 <= k < devs@.len() && d@ == (#[trigger] devs@[k])@ && d.busid@ == b@ && forall|
                    j: int,
                |
                    0 <= j < k ==> (#[trigger] devs@[j]).busid@ != b@,
            Err(e) => e@ == ClientErrorModel::NoSuchBusid && forall|j: int|
                0 <= j < devs@.len() ==> (#[trigger] devs@[j]).busid@ != b@,
        },
        busid is None ==> match r {
            Ok(d) => devs@.len() > 0 && d@ == devs@[0]@,
            Err(e) => devs@.len() == 0 && e@ == ClientErrorModel::NoDevice,
        },
{
    if let Some(b) = busid {
        return match position_of(devs, b) {
            Some(i) => Ok(devs[i].clone()),
            None => Err(ClientError::NoSuchBusid),
        };
    }
    if devs.len() == 0 {
        return Err(ClientError::NoDevice);
    }
    Ok(devs[0].clone())
}

/// What a receiver supports, by kind of handshake.
pub open spec fn supports_of(kind: ClientKind) -> Seq<Seq<char>> {
    match kind {
        ClientKind::HidReceive => seq!["hid-fastlane/1"@],
        ClientKind::HidSource => seq!["hid-fastlane/1"@],
        ClientKind::Usbip => seq!["usbip/1.1.1"@],
        ClientKind::UsbipTls => seq!["usbip/1.1.1"@, "hid-fastlane/1"@],
    }
}

/// The first message of a handshake.
pub open spec fn hello_model(client: Seq<char>, supports: Seq<Seq<char>>) -> ControlModel {
    ControlModel::Hello { version: 1, client, supports }
}

/// Builds a `HELLO`.
pub fn hello(client: &str, usbip: bool, hid: bool) -> (m: ControlMessage)
    ensures
        m@ == hello_model(
            client@,
            (if usbip {
                seq!["usbip/1.1.1"@]
            } else {
                Seq::empty()
            }) + (if hid {
                seq!["hid-fastlane/1"@]
            } else {
                Seq::empty()
            }),
        ),
        m@ matches ControlModel::Hello { version, client: name, supports } && version == 1 && name
            == client@ && supports.len() == (if usbip {
            1int
        } else {
            0
        }) + (if hid {
            1int
        } else {
            0
        }) && (usbip ==> supports[0] == "usbip/1.1.1"@) && (hid ==> supports.last()
            == "hid-fastlane/1"@),
{
    let mut supports: Vec<String> = Vec::new();
    if usbip {
        supports.push("usbip/1.1.1".to_owned());
    }
    if hid {
        supports.push("hid-fastlane/1".to_owned());
    }
    assert(texts(supports@) =~= (if usbip {
        seq!["usbip/1.1.1"@]
    } else {
        Seq::empty()
    }) + (if hid {
        seq!["hid-fastlane/1"@]
    } else {
        Seq::empty()
    }));
    ControlMessage::Hello { version: 1, client: client.to_owned(), supports }
}

/// State of a handshake.
#[derive(Debug)]
pub struct ClientSession {
    pub kind: ClientKind,
    pub phase: ClientPhase,
    /// The device that is wanted, if any is named.
    pub busid: Option<String>,
    /// The device that was chosen.
    pub chosen: Option<DeviceSummary>,
}

/// Model of a `ClientSession`.
pub struct ClientModel {
    pub kind: ClientKind,
    pub phase: ClientPhase,
    pub busid: Option<Seq<char>>,
    pub chosen: Option<DeviceModel>,
}

impl View for ClientSession {
    type V = ClientModel;

    open spec fn view(&self) -> ClientModel {
        ClientModel {
            kind: self.kind,
            phase: self.phase,
            busid: opt_text(self.busid),
            chosen: match self.chosen {
                Some(d) => Some(d@),
                None => None,
            },
        }
    }
}

/// What a handshake makes of a message: the state and the action behind it, or
/// why it fails.
pub type StepModel = Result<(ClientModel, ActionModel), ClientErrorModel>;

impl ClientModel {
    /// A handshake at its start.
    pub open spec fn start(kind: ClientKind, busid: Option<Seq<char>>) -> ClientModel {
        ClientModel { kind, phase: ClientPhase::AwaitHello, busid, chosen: None }
    }

    /// The answer to `HELLO`. Over TLS any answer will do; the log-writing
    /// receiver takes errors like any other unexpected answer.
    pub open spec fn on_hello(self, m: ControlModel) -> StepModel {
        if m is HelloAck || self.kind == ClientKind::UsbipTls {
            Ok(
                (
                    ClientModel { phase: ClientPhase::AwaitDevices, ..self },
                    ActionModel::Send(ControlModel::ListDevices),
                ),
            )
        } else {
            match m {
                ControlModel::Error { code, message } => if self.kind == ClientKind::HidSource {
                    Err(ClientErrorModel::UnexpectedHelloReply)
                } else {
                    Err(ClientErrorModel::Refused { code, message })
                },
                _ => Err(ClientErrorModel::UnexpectedHelloReply),
            }
        }
    }

    /// The device that this handshake takes from a list. The log-writing
    /// receiver never asks for a certain one.
    pub open spec fn choice(self, devs: Seq<DeviceModel>) -> Result<DeviceModel, ClientErrorModel> {
        match self.kind {
            ClientKind::HidReceive => hid_choice(devs, self.busid),
            ClientKind::HidSource => hid_choice(devs, None),
            ClientKind::Usbip => usbip_choice(devs, self.busid),
            ClientKind::UsbipTls => usbip_choice(devs, self.busid),
        }
    }

    /// The mode in which this handshake attaches.
    pub open spec fn mode(self) -> Seq<char> {
        match self.kind {
            ClientKind::HidReceive => "hid"@,
            ClientKind::HidSource => "hid"@,
            ClientKind::Usbip => "usbip"@,
            ClientKind::UsbipTls => "usbip"@,
        }
    }

    /// The answer to `LIST_DEVICES`.
    pub open spec fn on_devices(self, m: ControlModel) -> StepModel {
        match m {
            ControlModel::DeviceList { devices } => match self.choice(devices) {
                Err(e) => Err(e),
                Ok(d) => Ok(
                    (
                        ClientModel { phase: ClientPhase::AwaitAttach, chosen: Some(d), ..self },
                        ActionModel::Send(
                            ControlModel::Attach { busid: d.busid, mode: self.mode() },
                        ),
                    ),
                ),
            },
            _ => Err(ClientErrorModel::NotADeviceList),
        }
    }

    /// The answer to `ATTACH`. An old sender's plain `ATTACH_OK` does for
    /// USB/IP over TCP: what it leaves out is made up from the device list.
    pub open spec fn on_attach(self, m: ControlModel) -> StepModel {
        let done = ClientModel { phase: ClientPhase::Attached, ..self };
        let chosen = self.chosen->Some_0;
        let hid = self.kind == ClientKind::HidReceive || self.kind == ClientKind::HidSource;
        match m {
            ControlModel::AttachOk { busid, import_id } => if hid {
                Ok((done, ActionModel::Bind { busid: chosen.busid }))
            } else if self.kind == ClientKind::Usbip {
                Ok(
                    (
                        done,
                        ActionModel::Attached {
                            info: AttachModel {
                                busid,
                                import_id,
                                devid: 0,
                                speed: 2,
                                vendor_id: chosen.vendor_id,
                                product_id: chosen.product_id,
                                descriptor_hex: None,
                            },
                        },
                    ),
                )
            } else {
                Err(ClientErrorModel::UnexpectedAttachReply)
            },
            ControlModel::AttachOkUsbip { info } => if hid {
                Err(ClientErrorModel::UnexpectedAttachReply)
            } else {
                Ok((done, ActionModel::Attached { info }))
            },
            ControlModel::AttachDenied { busid, reason } => if self.kind == ClientKind::HidSource {
                Err(ClientErrorModel::UnexpectedAttachReply)
            } else {
                Err(ClientErrorModel::Denied { busid, reason })
            },
            _ => Err(ClientErrorModel::UnexpectedAttachReply),
        }
    }

    /// What the handshake makes of a message.
    pub open spec fn step(self, m: ControlModel) -> StepModel {
        match self.phase {
            ClientPhase::AwaitHello => self.on_hello(m),
            ClientPhase::AwaitDevices => self.on_devices(m),
            _ => self.on_attach(m),
        }
    }
}

/// The model of what `on_control` returns.
pub open spec fn result_model(after: ClientModel, r: Result<ClientAction, ClientError>) -> StepModel {
    match r {
        Ok(a) => Ok((after, a@)),
        Err(e) => Err(e@),
    }
}

impl ClientSession {
    /// Whether the state can occur: a device is chosen before it is attached.
    pub open spec fn wf(self) -> bool {
        self.phase == ClientPhase::AwaitAttach ==> self.chosen is Some
    }

    /// Starts a handshake: the state and the message to send.
    pub fn start(kind: ClientKind, client: &str, busid: Option<String>) -> (r: (
        ClientSession,
        ControlMessage,
    ))
        ensures
            r.0@ == ClientModel::start(kind, opt_text(busid)),
            r.0.kind == kind,
            r.0.phase == ClientPhase::AwaitHello,
            opt_text(r.0.busid) == opt_text(busid),
            r.0.chosen is None,
            r.1@ matches ControlModel::Hello { version, client: name, supports } && version == 1
                && name == client@ && supports == match kind {
                ClientKind::HidReceive | ClientKind::HidSource => seq!["hid-fastlane/1"@],
                ClientKind::Usbip => seq!["usbip/1.1.1"@],
                ClientKind::UsbipTls => seq!["usbip/1.1.1"@, "hid-fastlane/1"@],
            },
            r.0.wf(),
            r.1@ == hello_model(client@, supports_of(kind)),
    {
        let (usbip, hid) = match kind {
            ClientKind::HidReceive => (false, true),
            ClientKind::HidSource => (false, true),
            ClientKind::Usbip => (true, false),
            ClientKind::UsbipTls => (true, true),
        };
        let m = hello(client, usbip, hid);
        assert(m@->Hello_supports =~= supports_of(kind));
        (ClientSession { kind, phase: ClientPhase::AwaitHello, busid, chosen: None }, m)
    }

    /// Takes the sender's answer to the last message.
    pub fn on_control(&mut self, m: ControlMessage) -> (r: Result<ClientAction, ClientError>)
        requires
            old(self).wf(),
            old(self).phase != ClientPhase::Attached,
        ensures
            final(self).wf(),
            result_model(final(self)@, r) == old(self)@.step(m@),
            r is Err ==> final(self)@ == old(self)@,
    {
        match self.phase {
            ClientPhase::AwaitHello => self.take_hello_reply(m),
            ClientPhase::AwaitDevices => self.take_devices(m),
            _ => self.take_attach_reply(m),
        }
    }

    fn take_hello_reply(&mut self, m: ControlMessage) -> (r: Result<ClientAction, ClientError>)
        requires
            old(self).phase == ClientPhase::AwaitHello,
        ensures
            final(self).wf(),
            result_model(final(self)@, r) == old(self)@.on_hello(m@),
            r is Err ==> final(self)@ == old(self)@,
    {
        if self.kind != ClientKind::UsbipTls {
            match m {
                ControlMessage::HelloAck { .. } => {},
                ControlMessage::Error { code, message } => {
                    if self.kind == ClientKind::HidSource {
                        return Err(ClientError::UnexpectedHelloReply);
                    }
                    return Err(ClientError::Refused { code, message });
                },
                _ => return Err(ClientError::UnexpectedHelloReply),
            }
        }
        self.phase = ClientPhase::AwaitDevices;
        Ok(ClientAction::Send(ControlMessage::ListDevices))
    }

    fn take_devices(&mut self, m: ControlMessage) -> (r: Result<ClientAction, ClientError>)
        requires
            old(self).phase == ClientPhase::AwaitDevices,
        ensures
            final(self).wf(),
            result_model(final(self)@, r) == old(self)@.on_devices(m@),
            r is Err ==> final(self)@ == old(self)@,
    {
        let devices = match m {
            ControlMessage::DeviceList { devices } => devices,
            _ => return Err(ClientError::NotADeviceList),
        };
        let wanted: Option<&str> = match &self.busid {
            Some(b) => Some(b.as_str()),
            None => None,
        };
        let picked = match self.kind {
            ClientKind::HidReceive => pick_hid_device(devices.as_slice(), wanted),
            ClientKind::HidSource => pick_hid_device(devices.as_slice(), None),
            _ => pick_device(devices.as_slice(), wanted),
        };
        let d = match picked {
            Ok(d) => d,
            Err(e) => return Err(e),
        };
        let mode = match self.kind {
            ClientKind::HidReceive => "hid",
            ClientKind::HidSource => "hid",
            _ => "usbip",
        };
        let attach = ControlMessage::Attach { busid: d.busid.clone(), mode: mode.to_owned() };
        self.phase = ClientPhase::AwaitAttach;
        self.chosen = Some(d);
        Ok(ClientAction::Send(attach))
    }

    fn take_attach_reply(&mut self, m: ControlMessage) -> (r: Result<ClientAction, ClientError>)
        requires
            old(self).phase == ClientPhase::AwaitAttach,
            old(self).chosen is Some,
        ensures
            final(self).wf(),
            result_model(final(self)@, r) == old(self)@.on_attach(m@),
            r is Err ==> final(self)@ == old(self)@,
    {
        let hid = self.kind == ClientKind::HidReceive || self.kind == ClientKind::HidSource;
        let (chosen_busid, vendor_id, product_id) = match &self.chosen {
            Some(d) => (d.busid.clone(), d.vendor_id, d.product_id),
            None => return Err(ClientError::UnexpectedAttachReply),
        };
        match m {
            ControlMessage::AttachOk { busid, import_id } => {
                if hid {
                    self.phase = ClientPhase::Attached;
                    Ok(ClientAction::Bind { busid: chosen_busid })
                } else if self.kind == ClientKind::Usbip {
                    self.phase = ClientPhase::Attached;
                    Ok(
                        ClientAction::Attached {
                            info: UsbipAttachInfo {
                                busid,
                                import_id,
                                devid: 0,
                                speed: 2,
                                vendor_id,
                                product_id,
                                descriptor_hex: None,
                            },
                        },
                    )
                } else {
                    Err(ClientError::UnexpectedAttachReply)
                }
            },
            ControlMessage::AttachOkUsbip { info } => {
                if hid {
                    Err(ClientError::UnexpectedAttachReply)
                } else {
                    self.phase = ClientPhase::Attached;
                    Ok(ClientAction::Attached { info })
                }
            },
            ControlMessage::AttachDenied { busid, reason } => {
                if self.kind == ClientKind::HidSource {
                    Err(ClientError::UnexpectedAttachReply)
                } else {
                    Err(ClientError::Denied { busid, reason })
                }
            },
            _ => Err(ClientError::UnexpectedAttachReply),
        }
    }
}

/// What an inventory makes of the answer to `HELLO`: the acknowledgement, or why
/// there is none.
pub fn handshake(m: ControlMessage) -> (r: Result<ControlMessage, ClientError>)
    ensures
        match r {
            Ok(ack) => m@ is HelloAck && ack@ == m@,
            Err(e) => !(m@ is HelloAck) && e@ == match m@ {
                ControlModel::Error { code, message } => ClientErrorModel::Refused {
                    code,
                    message,
                },
                _ => ClientErrorModel::UnexpectedHelloReply,
            },
        },
{
    match m {
        ControlMessage::HelloAck { sender_id, name, supports } => Ok(
            ControlMessage::HelloAck { sender_id, name, supports },
        ),
        ControlMessage::Error { code, message } => Err(ClientError::Refused { code, message }),
        _ => Err(ClientError::UnexpectedHelloReply),
    }
}

/// What an inventory makes of the answer to `LIST_DEVICES`.
pub fn listed_devices(m: ControlMessage) -> (r: Result<Vec<DeviceSummary>, ClientError>)
    ensures
        match r {
            Ok(v) => m@ == (ControlModel::DeviceList { devices: devices_model(v@) }),
            Err(e) => !(m@ is DeviceList) && e@ == ClientErrorModel::NotADeviceList,
        },
{
    match m {
        ControlMessage::DeviceList { devices } => Ok(devices),
        _ => Err(ClientError::NotADeviceList),
    }
}

/// The request that binds a device for input.
pub fn bind_request(busid: &str) -> (b: BindRequest)
    ensures
        b.busid@ == busid@,
        b.want@ == "input"@,
{
    BindRequest { busid: busid.to_owned(), want: "input".to_owned() }
}

/// The binding id that receivers ask for.
pub const BIND_ID: u8 = 1;

/// The envelope of a bind request, given as JSON.
pub fn bind_envelope(json: &[u8]) -> (r: Result<Vec<u8>, EnvelopeError>)
    ensures
        match r {
            Ok(v) => json@.len() + 4 <= MAX_PAYLOAD && v@ == envelope_bytes(
                Channel::Hid,
                hid_frame_bytes(HidOp::Bind, BIND_ID, 0, json@),
            ),
            Err(e) => json@.len() + 4 > MAX_PAYLOAD && e == EnvelopeError::TooLarge(
                (json@.len() + 4) as usize,
            ),
        },
        r matches Ok(v) ==> v@.len() == 12 + json@.len() && v@[3] == 3 && v@[8] == 1 && v@[9] == 1
            && v@[10] == 0 && v@[11] == 0 && forall|i: int|
            0 <= i < json@.len() ==> #[trigger] v@[12 + i] == json@[i],
{
    let frame = HidFrame::new(HidOp::Bind, BIND_ID, 0, json).encode();
    assert(frame@.len() == json@.len() + 4);
    Envelope::new(Channel::Hid, frame.as_slice()).encode()
}

/// A device that was found by its busid is one of the list and has that busid.
pub proof fn lemma_busid_choice(devs: Seq<DeviceModel>, busid: Seq<char>)
    ensures
        first_with_busid(devs, busid) matches Some(d) ==> devs.contains(d) && d.busid == busid,
        first_with_busid(devs, busid) is None <==> (forall|i: int|
            0 <= i < devs.len() ==> (#[trigger] devs[i]).busid != busid),
    decreases devs.len(),
{
    if devs.len() > 0 {
        let rest = devs.skip(1);
        lemma_busid_choice(rest, busid);
        assert forall|i: int| 0 <= i < rest.len() implies #[trigger] rest[i] == devs[i + 1] by {}
        if devs[0].busid == busid {
            assert(devs.contains(devs[0]));
        } else if let Some(d) = first_with_busid(rest, busid) {
            let i = choose|i: int| 0 <= i < rest.len() && rest[i] == d;
            assert(devs[i + 1] == d);
        } else {
            assert forall|i: int| 0 <= i < devs.len() implies (#[trigger] devs[i]).busid
                != busid by {
                if i > 0 {
                    assert(rest[i - 1] == devs[i]);
                }
            }
        }
        if first_with_busid(devs, busid) is Some && devs[0].busid != busid {
            assert(exists|i: int| 0 <= i < rest.len() && (#[trigger] rest[i]).busid == busid);
            let i = choose|i: int| 0 <= i < rest.len() && (#[trigger] rest[i]).busid == busid;
            assert(devs[i + 1].busid == busid);
        }
    }
}

/// The index of the first device with a busid is that of the device.
pub proof fn lemma_busid_index(devs: Seq<DeviceModel>, busid: Seq<char>)
    ensures
        first_with_busid(devs, busid) matches Some(d) ==> busid_index(devs, busid) < devs.len()
            && devs[busid_index(devs, busid) as int] == d,
        first_with_busid(devs, busid) is None ==> busid_index(devs, busid) == devs.len(),
    decreases devs.len(),
{
    if devs.len() > 0 && devs[0].busid != busid {
        lemma_busid_index(devs.skip(1), busid);
    }
}

/// The HID device that is chosen without a busid is one of the list and is a
/// HID device; there is none only where the list has none.
pub proof fn lemma_hid_choice(devs: Seq<DeviceModel>)
    ensures
        first_hid(devs) matches Some(d) ==> devs.contains(d) && d.is_hid,
        first_hid(devs) is None <==> (forall|i: int|
            0 <= i < devs.len() ==> !(#[trigger] devs[i]).is_hid),
    decreases devs.len(),
{
    if devs.len() > 0 {
        let rest = devs.skip(1);
        lemma_hid_choice(rest);
        assert forall|i: int| 0 <= i < rest.len() implies #[trigger] rest[i] == devs[i + 1] by {}
        if devs[0].is_hid {
            assert(devs.contains(devs[0]));
        } else if let Some(d) = first_hid(rest) {
            let i = choose|i: int| 0 <= i < rest.len() && rest[i] == d;
            assert(devs[i + 1] == d);
        } else {
            assert forall|i: int| 0 <= i < devs.len() implies !(#[trigger] devs[i]).is_hid by {
                if i > 0 {
                    assert(rest[i - 1] == devs[i]);
                }
            }
        }
        if first_hid(devs) is Some && !devs[0].is_hid {
            let i = choose|i: int| 0 <= i < rest.len() && (#[trigger] rest[i]).is_hid;
            assert(devs[i + 1].is_hid);
        }
    }
}

/// The first of the devices with a busid is the first: none before it has it.
pub proof fn lemma_first_with_busid_at(devs: Seq<DeviceModel>, busid: Seq<char>, k: int)
    requires
        0 <= k < devs.len(),
        devs[k].busid == busid,
        forall|j: int| 0 <= j < k ==> (#[trigger] devs[j]).busid != busid,
    ensures
        first_with_busid(devs, busid) == Some(devs[k]),
        busid_index(devs, busid) == k,
    decreases k,
{
    if k > 0 {
        let rest = devs.skip(1);
        assert(devs[0].busid != busid);
        assert forall|j: int| 0 <= j < k - 1 implies (#[trigger] rest[j]).busid != busid by {
            assert(rest[j] == devs[j + 1]);
        }
        lemma_first_with_busid_at(rest, busid, k - 1);
    }
}

proof fn lemma_first_hid_at(devs: Seq<DeviceModel>, k: int)
    requires
        0 <= k < devs.len(),
        devs[k].is_hid,
        forall|j: int| 0 <= j < k ==> !(#[trigger] devs[j]).is_hid,
    ensures
        first_hid(devs) == Some(devs[k]),
    decreases k,
{
    if k > 0 {
        let rest = devs.skip(1);
        assert(!devs[0].is_hid);
        assert forall|j: int| 0 <= j < k - 1 implies !(#[trigger] rest[j]).is_hid by {
            assert(rest[j] == devs[j + 1]);
        }
        lemma_first_hid_at(rest, k - 1);
    }
}

/// A handshake that was started for a certain busid attaches the first device
/// with just that busid, and fails exactly where no listed device has it. The
/// log-writing receiver is the one kind that cannot be started so.
pub proof fn lemma_wanted_busid_is_attached(
    m: ClientModel,
    wanted: Seq<char>,
    devices: Seq<DeviceModel>,
)
    requires
        m.phase == ClientPhase::AwaitDevices,
        m.kind != ClientKind::HidSource,
        m.busid == Some(wanted),
    ensures
        m.step(ControlModel::DeviceList { devices }) == Err::<
            (ClientModel, ActionModel),
            ClientErrorModel,
        >(ClientErrorModel::NoSuchBusid) <==> (forall|i: int|
            0 <= i < devices.len() ==> (#[trigger] devices[i]).busid != wanted),
        m.step(ControlModel::DeviceList { devices }) matches Err(e) ==> e
            == ClientErrorModel::NoSuchBusid,
        m.step(ControlModel::DeviceList { devices }) matches Ok((after, action)) ==> {
            &&& after.phase == ClientPhase::AwaitAttach
            &&& after.kind == m.kind
            &&& after.busid == m.busid
            &&& after.chosen matches Some(d) && d.busid == wanted && devices.contains(d)
            &&& action == ActionModel::Send(
                ControlModel::Attach {
                    busid: wanted,
                    mode: if m.kind == ClientKind::HidReceive {
                        "hid"@
                    } else {
                        "usbip"@
                    },
                },
            )
        },
        forall|k: int|
            0 <= k < devices.len() && (#[trigger] devices[k]).busid == wanted && (forall|j: int|
                0 <= j < k ==> (#[trigger] devices[j]).busid != wanted) ==> (m.step(
                ControlModel::DeviceList { devices },
            ) matches Ok((after, _)) && after.chosen == Some(devices[k])),
{
    lemma_busid_choice(devices, wanted);
    assert forall|k: int|
        0 <= k < devices.len() && (#[trigger] devices[k]).busid == wanted && (forall|j: int|
            0 <= j < k ==> (#[trigger] devices[j]).busid != wanted) implies (m.step(
        ControlModel::DeviceList { devices },
    ) matches Ok((after, _)) && after.chosen == Some(devices[k])) by {
        lemma_first_with_busid_at(devices, wanted, k);
    }
}

/// A handshake on the HID fast lane for no certain device, and any for the
/// log-writing receiver, attaches the first HID device of the list, and fails
/// exactly where there is none.
pub proof fn lemma_first_hid_is_attached(m: ClientModel, devices: Seq<DeviceModel>)
    requires
        m.phase == ClientPhase::AwaitDevices,
        m.kind == ClientKind::HidSource || (m.kind == ClientKind::HidReceive && m.busid is None),
    ensures
        m.step(ControlModel::DeviceList { devices }) is Err <==> (forall|i: int|
            0 <= i < devices.len() ==> !(#[trigger] devices[i]).is_hid),
        m.step(ControlModel::DeviceList { devices }) matches Err(e) ==> e
            == ClientErrorModel::NoHidDevice,
        forall|k: int|
            0 <= k < devices.len() && (#[trigger] devices[k]).is_hid && (forall|j: int|
                0 <= j < k ==> !(#[trigger] devices[j]).is_hid) ==> m.step(
                ControlModel::DeviceList { devices },
            ) == Ok::<(ClientModel, ActionModel), ClientErrorModel>(
                (
                    ClientModel {
                        kind: m.kind,
                        phase: ClientPhase::AwaitAttach,
                        busid: m.busid,
                        chosen: Some(devices[k]),
                    },
                    ActionModel::Send(
                        ControlModel::Attach { busid: devices[k].busid, mode: "hid"@ },
                    ),
                ),
            ),
{
    lemma_hid_choice(devices);
    assert forall|k: int|
        0 <= k < devices.len() && (#[trigger] devices[k]).is_hid && (forall|j: int|
            0 <= j < k ==> !(#[trigger] devices[j]).is_hid) implies first_hid(devices) == Some(
        devices[k],
    ) by {
        lemma_first_hid_at(devices, k);
    }
}

/// A USB/IP handshake for no certain device attaches the first of the list, and
/// fails exactly where the list is empty.
pub proof fn lemma_first_device_is_attached(m: ClientModel, devices: Seq<DeviceModel>)
    requires
        m.phase == ClientPhase::AwaitDevices,
        m.kind == ClientKind::Usbip || m.kind == ClientKind::UsbipTls,
        m.busid is None,
    ensures
        devices.len() == 0 ==> m.step(ControlModel::DeviceList { devices }) == Err::<
            (ClientModel, ActionModel),
            ClientErrorModel,
        >(ClientErrorModel::NoDevice),
        devices.len() > 0 ==> m.step(ControlModel::DeviceList { devices }) == Ok::<
            (ClientModel, ActionModel),
            ClientErrorModel,
        >(
            (
                ClientModel {
                    kind: m.kind,
                    phase: ClientPhase::AwaitAttach,
                    busid: m.busid,
                    chosen: Some(devices[0]),
                },
                ActionModel::Send(ControlModel::Attach { busid: devices[0].busid, mode: "usbip"@ }),
            ),
        ),
{
}

/// What each kind of handshake makes of the answer to `HELLO`: an acknowledgement
/// is followed by `LIST_DEVICES`, with the wanted busid kept; over TLS so is
/// anything else. Otherwise an error is passed on, but by the log-writing
/// receiver, and anything else is unexpected.
pub proof fn lemma_hello_replies(m: ClientModel, reply: ControlModel)
    requires
        m.phase == ClientPhase::AwaitHello,
    ensures
        reply is HelloAck || m.kind == ClientKind::UsbipTls ==> m.step(reply) == Ok::<
            (ClientModel, ActionModel),
            ClientErrorModel,
        >(
            (
                ClientModel {
                    kind: m.kind,
                    phase: ClientPhase::AwaitDevices,
                    busid: m.busid,
                    chosen: m.chosen,
                },
                ActionModel::Send(ControlModel::ListDevices),
            ),
        ),
        m.kind == ClientKind::HidReceive || m.kind == ClientKind::Usbip ==> (
        reply matches ControlModel::Error { code, message } ==> m.step(reply) == Err::<
            (ClientModel, ActionModel),
            ClientErrorModel,
        >(ClientErrorModel::Refused { code, message })),
        m.kind != ClientKind::UsbipTls && !(reply is HelloAck) && (!(reply is Error) || m.kind
            == ClientKind::HidSource) ==> m.step(reply) == Err::<
            (ClientModel, ActionModel),
            ClientErrorModel,
        >(ClientErrorModel::UnexpectedHelloReply),
{
}

/// Anything but a list in answer to `LIST_DEVICES` ends the handshake.
pub proof fn lemma_only_a_list_will_do(m: ClientModel, reply: ControlModel)
    requires
        m.phase == ClientPhase::AwaitDevices,
        !(reply is DeviceList),
    ensures
        m.step(reply) == Err::<(ClientModel, ActionModel), ClientErrorModel>(
            ClientErrorModel::NotADeviceList,
        ),
{
}

/// What each kind of handshake makes of the answer to `ATTACH`: on the HID fast
/// lane `ATTACH_OK` leads to binding the chosen device; for USB/IP the sender's
/// own attach info is taken as it is, and over plain TCP a mere `ATTACH_OK` is
/// filled up with device 0, speed 2 and the chosen device's ids. A denial is
/// passed on, but by the log-writing receiver; anything else is unexpected.
pub proof fn lemma_attach_replies(m: ClientModel, chosen: DeviceModel, reply: ControlModel)
    requires
        m.phase == ClientPhase::AwaitAttach,
        m.chosen == Some(chosen),
    ensures
        ({
            let hid = m.kind == ClientKind::HidReceive || m.kind == ClientKind::HidSource;
            let done = ClientModel {
                kind: m.kind,
                phase: ClientPhase::Attached,
                busid: m.busid,
                chosen: m.chosen,
            };
            match reply {
                ControlModel::AttachOk { busid, import_id } => if hid {
                    m.step(reply) == Ok::<(ClientModel, ActionModel), ClientErrorModel>(
                        (done, ActionModel::Bind { busid: chosen.busid }),
                    )
                } else if m.kind == ClientKind::Usbip {
                    m.step(reply) matches Ok((after, ActionModel::Attached { info })) && after
                        == done && info.busid == busid && info.import_id == import_id && info.devid
                        == 0 && info.speed == 2 && info.vendor_id == chosen.vendor_id
                        && info.product_id == chosen.product_id && info.descriptor_hex is None
                } else {
                    m.step(reply) == Err::<(ClientModel, ActionModel), ClientErrorModel>(
                        ClientErrorModel::UnexpectedAttachReply,
                    )
                },
                ControlModel::AttachOkUsbip { info } => if hid {
                    m.step(reply) == Err::<(ClientModel, ActionModel), ClientErrorModel>(
                        ClientErrorModel::UnexpectedAttachReply,
                    )
                } else {
                    m.step(reply) == Ok::<(ClientModel, ActionModel), ClientErrorModel>(
                        (done, ActionModel::Attached { info }),
                    )
                },
                ControlModel::AttachDenied { busid, reason } => m.step(reply) == Err::<
                    (ClientModel, ActionModel),
                    ClientErrorModel,
                >(
                    if m.kind == ClientKind::HidSource {
                        ClientErrorModel::UnexpectedAttachReply
                    } else {
                        ClientErrorModel::Denied { busid, reason }
                    },
                ),
                _ => m.step(reply) == Err::<(ClientModel, ActionModel), ClientErrorModel>(
                    ClientErrorModel::UnexpectedAttachReply,
                ),
            }
        }),
{
}

/// A handshake from its start, on a sender that acknowledges, lists and
/// confirms: the device that is bound or attached in the end is the one that was
/// named at the start.
pub proof fn lemma_named_device_is_reached(
    kind: ClientKind,
    wanted: Seq<char>,
    ack: ControlModel,
    devices: Seq<DeviceModel>,
    granted: ControlModel,
    k: int,
)
    requires
        kind != ClientKind::HidSource,
        ack is HelloAck,
        0 <= k < devices.len(),
        devices[k].busid == wanted,
        granted is AttachOk,
        granted->AttachOk_busid == wanted,
        kind != ClientKind::UsbipTls,
    ensures
        ({
            let at_hello = ClientModel::start(kind, Some(wanted));
            let at_list = at_hello.step(ack)->Ok_0.0;
            let at_attach = at_list.step(ControlModel::DeviceList { devices })->Ok_0.0;
            &&& at_hello.step(ack) is Ok
            &&& at_list.step(ControlModel::DeviceList { devices }) is Ok
            &&& at_attach.step(granted) matches Ok((done, action)) && done.phase
                == ClientPhase::Attached && (action matches ActionModel::Bind { busid } ==> busid
                == wanted && kind == ClientKind::HidReceive) && (
            action matches ActionModel::Attached { info } ==> info.busid == wanted && kind
                == ClientKind::Usbip) && !(action is Send)
        }),
{
    let at_hello = ClientModel::start(kind, Some(wanted));
    lemma_hello_replies(at_hello, ack);
    let at_list = at_hello.step(ack)->Ok_0.0;
    lemma_wanted_busid_is_attached(at_list, wanted, devices);
    assert(devices[k].busid == wanted);
    let at_attach = at_list.step(ControlModel::DeviceList { devices })->Ok_0.0;
    lemma_attach_replies(at_attach, at_attach.chosen->Some_0, granted);
}

} // verus!
