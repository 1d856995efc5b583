//! The sender's side: handshake, HID binding and the streams behind them.
//!
//! Four senders share the handshake: a mock HID sender, a mock USB/IP sender,
//! the URB pump and the `/dev/hidraw` sender. `SenderSession` is where a
//! handshake stands.

use vstd::prelude::*;

use crate::desktop::client::{
    busid_index, first_with_busid, lemma_busid_choice, lemma_busid_index,
    lemma_first_with_busid_at, lemma_hid_choice,
    ActionModel, ClientKind, ClientModel, ClientPhase,
};
use crate::desktop::hid_descriptor::{
    first_desktop_usage, keyboard_descriptor, keyboard_descriptor_bytes, kind_of_usage, mouse_descriptor, mouse_descriptor_bytes,
    Kind,
};
use crate::desktop::hidraw::ExposedHidraw;
use crate::desktop::receiver::{
    hid_envelope, next_seq, seq_jump, HidSession, HidStep, SourceSession,
};
use crate::desktop::report::{lemma_mouse_moves_each_axis, mouse_events, rel_sum};
use crate::desktop::usbip::{device_descriptor_bytes, synth_device_descriptor};
use crate::protocol::control::{
    clone_devices, devices_model, ControlMessage, ControlModel, DeviceModel, DeviceSummary,
};
use crate::protocol::envelope::{envelope_bytes, Channel, Envelope, MAX_PAYLOAD};
use crate::protocol::hid::{
    bind_ack_body, encode_bind_ack_body, hid_frame_bytes, hid_outcome, lemma_hid_frame_round_trip,
    BindAckMeta, BindRequest, DeviceKind, HidError, HidFrame, HidOp,
};
use crate::protocol::usbip::{usbip_frame_bytes, AttachModel, UsbipAttachInfo, UsbipFrame};
use crate::text::{hex_bytes, hex_encode, push_str, same_text, texts};

verus! {

/// Which sender is speaking.
#[derive(Clone, Copy, Debug, PartialEq, Eq, Structural)]
pub enum SenderKind {
    /// Streams made-up mouse reports.
    MockHid,
    /// Streams made-up USB/IP packets.
    MockUsbip,
    /// Answers URBs with a fake device.
    Pump,
    /// Streams the reports of real `/dev/hidraw` devices.
    Hidraw,
}

/// Where a handshake stands.
#[derive(Clone, Copy, Debug, PartialEq, Eq, Structural)]
pub enum SenderPhase {
    AwaitHello,
    AwaitList,
    AwaitAttach,
    Attached,
}

/// Why a handshake fails.
#[derive(Debug)]
pub enum SenderError {
    ExpectedHello,
    ExpectedListDevices,
    ExpectedAttach,
    /// The receiver wants a device that is not offered.
    UnknownBusid { busid: String },
    /// The receiver wants a mode that is not offered.
    WrongMode { mode: String },
}

/// Model of a `SenderError`.
pub enum SenderErrorModel {
    ExpectedHello,
    ExpectedListDevices,
    ExpectedAttach,
    UnknownBusid { busid: Seq<char> },
    WrongMode { mode: Seq<char> },
}

impl View for SenderError {
    type V = SenderErrorModel;

    open spec fn view(&self) -> SenderErrorModel {
        match *self {
            SenderError::ExpectedHello => SenderErrorModel::ExpectedHello,
            SenderError::ExpectedListDevices => SenderErrorModel::ExpectedListDevices,
            SenderError::ExpectedAttach => SenderErrorModel::ExpectedAttach,
            SenderError::UnknownBusid { busid } => SenderErrorModel::UnknownBusid { busid: busid@ },
            SenderError::WrongMode { mode } => SenderErrorModel::WrongMode { mode: mode@ },
        }
    }
}

/// State of a handshake.
#[derive(Debug)]
pub struct SenderSession {
    pub kind: SenderKind,
    pub phase: SenderPhase,
    /// What the sender calls itself.
    pub name: String,
    /// The id it gives to the attached device.
    pub import_id: u32,
    /// Index of the attached device in the sender's list.
    pub chosen: usize,
}

/// Model of a `SenderSession`.
pub struct SenderModel {
    pub kind: SenderKind,
    pub phase: SenderPhase,
    pub name: Seq<char>,
    pub import_id: u32,
    pub chosen: nat,
}

impl View for SenderSession {
    type V = SenderModel;

    open spec fn view(&self) -> SenderModel {
        SenderModel {
            kind: self.kind,
            phase: self.phase,
            name: self.name@,
            import_id: self.import_id,
            chosen: self.chosen as nat,
        }
    }
}

/// What a sender identifies itself by.
pub open spec fn sender_id(kind: SenderKind) -> Seq<char> {
    match kind {
        SenderKind::MockHid => "mock-sender"@,
        SenderKind::MockUsbip => "mock-sender"@,
        SenderKind::Pump => "simulate-android-pump"@,
        SenderKind::Hidraw => "linux-sender"@,
    }
}

/// What a sender supports.
pub open spec fn sender_supports(kind: SenderKind) -> Seq<Seq<char>> {
    match kind {
        SenderKind::MockHid => seq!["hid-fastlane/1"@, "usbip/1.1.1"@],
        SenderKind::MockUsbip => seq!["hid-fastlane/1"@, "usbip/1.1.1"@],
        SenderKind::Pump => seq!["usbip/1.1.1"@],
        SenderKind::Hidraw => seq!["hid-fastlane/1"@],
    }
}

/// The only mode in which a sender attaches, if it minds.
pub open spec fn sender_mode(kind: SenderKind) -> Option<Seq<char>> {
    match kind {
        SenderKind::MockHid => Some("hid"@),
        SenderKind::MockUsbip => Some("usbip"@),
        SenderKind::Pump => Some("usbip"@),
        SenderKind::Hidraw => None,
    }
}

/// What a USB/IP sender tells of the device it attaches: bus 1, device 2, high
/// speed, and a device descriptor made up from the device's ids and class.
pub open spec fn attach_model(d: DeviceModel, import_id: u32) -> AttachModel {
    AttachModel {
        busid: d.busid,
        import_id,
        devid: 0x0001_0002,
        speed: 3,
        vendor_id: d.vendor_id,
        product_id: d.product_id,
        descriptor_hex: Some(
            hex_bytes(device_descriptor_bytes(d.vendor_id, d.product_id, d.device_class)),
        ),
    }
}

/// Builds what a USB/IP sender tells of the device it attaches.
pub fn attach_info(d: &DeviceSummary, import_id: u32) -> (i: UsbipAttachInfo)
    ensures
        i@ == attach_model(d@, import_id),
        i.busid@ == d.busid@,
        i.import_id == import_id,
        i.devid == 0x1_0000 * 1 + 2,
        i.speed == 3,
        i.vendor_id == d.vendor_id,
        i.product_id == d.product_id,
        i.descriptor_hex matches Some(t) && t@ == hex_bytes(
            device_descriptor_bytes(d.vendor_id, d.product_id, d.device_class),
        ),
{
    let descriptor = synth_device_descriptor(d.vendor_id, d.product_id, d.device_class);
    UsbipAttachInfo {
        busid: d.busid.clone(),
        import_id,
        devid: 0x0001_0002,
        speed: 3,
        vendor_id: d.vendor_id,
        product_id: d.product_id,
        descriptor_hex: Some(hex_encode(&descriptor)),
    }
}

impl SenderModel {
    /// What the sender makes of a message, given the devices it exposes: the
    /// next state and the answer, or why the handshake fails.
    pub open spec fn step(self, m: ControlModel, devices: Seq<DeviceModel>) -> Result<
        (SenderModel, ControlModel),
        SenderErrorModel,
    > {
        match self.phase {
            SenderPhase::AwaitHello => if m is Hello {
                Ok(
                    (
                        SenderModel { phase: SenderPhase::AwaitList, ..self },
                        ControlModel::HelloAck {
                            sender_id: sender_id(self.kind),
                            name: self.name,
                            supports: sender_supports(self.kind),
                        },
                    ),
                )
            } else {
                Err(SenderErrorModel::ExpectedHello)
            },
            SenderPhase::AwaitList => if m is ListDevices {
                Ok(
                    (
                        SenderModel { phase: SenderPhase::AwaitAttach, ..self },
                        ControlModel::DeviceList { devices },
                    ),
                )
            } else {
                Err(SenderErrorModel::ExpectedListDevices)
            },
            _ => match m {
                ControlModel::Attach { busid, mode } => match first_with_busid(devices, busid) {
                    None => Err(SenderErrorModel::UnknownBusid { busid }),
                    Some(d) => if sender_mode(self.kind) is Some && mode != sender_mode(
                        self.kind,
                    )->Some_0 {
                        Err(SenderErrorModel::WrongMode { mode })
                    } else {
                        Ok(
                            (
                                SenderModel {
                                    phase: SenderPhase::Attached,
                                    chosen: busid_index(devices, busid),
                                    ..self
                                },
                                if self.kind == SenderKind::MockHid || self.kind
                                    == SenderKind::Hidraw {
                                    ControlModel::AttachOk {
                                        busid: d.busid,
                                        import_id: self.import_id,
                                    }
                                } else {
                                    ControlModel::AttachOkUsbip {
                                        info: attach_model(d, self.import_id),
                                    }
                                },
                            ),
                        )
                    },
                },
                _ => Err(SenderErrorModel::ExpectedAttach),
            },
        }
    }
}

impl SenderSession {
    /// A mock HID sender that awaits a receiver.
    pub fn mock_hid() -> (s: SenderSession)
        ensures
            s@ == (SenderModel {
                kind: SenderKind::MockHid,
                phase: SenderPhase::AwaitHello,
                name: "zerowire-mock"@,
                import_id: 1,
                chosen: 0,
            }),
    {
        SenderSession {
            kind: SenderKind::MockHid,
            phase: SenderPhase::AwaitHello,
            name: "zerowire-mock".to_owned(),
            import_id: 1,
            chosen: 0,
        }
    }

    /// A mock USB/IP sender that awaits a receiver.
    pub fn mock_usbip() -> (s: SenderSession)
        ensures
            s@ == (SenderModel {
                kind: SenderKind::MockUsbip,
                phase: SenderPhase::AwaitHello,
                name: "zerowire-mock"@,
                import_id: 7,
                chosen: 0,
            }),
    {
        SenderSession {
            kind: SenderKind::MockUsbip,
            phase: SenderPhase::AwaitHello,
            name: "zerowire-mock".to_owned(),
            import_id: 7,
            chosen: 0,
        }
    }

    /// A URB pump that awaits a receiver.
    pub fn pump(import_id: u32) -> (s: SenderSession)
        ensures
            s@ == (SenderModel {
                kind: SenderKind::Pump,
                phase: SenderPhase::AwaitHello,
                name: "zerowire-android-pump"@,
                import_id,
                chosen: 0,
            }),
    {
        SenderSession {
            kind: SenderKind::Pump,
            phase: SenderPhase::AwaitHello,
            name: "zerowire-android-pump".to_owned(),
            import_id,
            chosen: 0,
        }
    }

    /// A `/dev/hidraw` sender that awaits a receiver.
    pub fn hidraw(name: &str) -> (s: SenderSession)
        ensures
            s@ == (SenderModel {
                kind: SenderKind::Hidraw,
                phase: SenderPhase::AwaitHello,
                name: name@,
                import_id: 1,
                chosen: 0,
            }),
    {
        SenderSession {
            kind: SenderKind::Hidraw,
            phase: SenderPhase::AwaitHello,
            name: name.to_owned(),
            import_id: 1,
            chosen: 0,
        }
    }

    fn hello_ack(&self) -> (m: ControlMessage)
        ensures
            m@ == (ControlModel::HelloAck {
                sender_id: sender_id(self.kind),
                name: self.name@,
                supports: sender_supports(self.kind),
            }),
    {
        let id = match self.kind {
            SenderKind::MockHid => "mock-sender",
            SenderKind::MockUsbip => "mock-sender",
            SenderKind::Pump => "simulate-android-pump",
            SenderKind::Hidraw => "linux-sender",
        };
        let mut supports: Vec<String> = Vec::new();
        if self.kind != SenderKind::Pump {
            supports.push("hid-fastlane/1".to_owned());
        }
        if self.kind != SenderKind::Hidraw {
            supports.push("usbip/1.1.1".to_owned());
        }
        assert(texts(supports@) =~= sender_supports(self.kind));
        ControlMessage::HelloAck { sender_id: id.to_owned(), name: self.name.clone(), supports }
    }

    /// Takes a message of the receiver and answers it. `devices` are the
    /// devices that the sender exposes.
    pub fn on_control(&mut self, m: ControlMessage, devices: &[DeviceSummary]) -> (r: Result<
        ControlMessage,
        SenderError,
    >)
        requires
            old(self).phase != SenderPhase::Attached,
        ensures
            match r {
                Ok(reply) => old(self)@.step(m@, devices_model(devices@)) == Ok::<
                    (SenderModel, ControlModel),
                    SenderErrorModel,
                >((final(self)@, reply@)),
                Err(e) => old(self)@.step(m@, devices_model(devices@)) == Err::<
                    (SenderModel, ControlModel),
                    SenderErrorModel,
                >(e@) && final(self)@ == old(self)@,
            },
            final(self).phase == SenderPhase::Attached ==> m@ is Attach && final(self).chosen
                < devices@.len() && first_with_busid(devices_model(devices@), m@->Attach_busid)
                == Some(devices@[final(self).chosen as int]@),
            final(self).phase == SenderPhase::Attached ==> devices@[final(self).chosen as int].busid@ == m@->Attach_busid && forall|j: int|
                0 <= j < final(self).chosen ==> (#[trigger] devices@[j]).busid@ != m@->Attach_busid,
            final(self).kind == old(self).kind,
            final(self).name@ == old(self).name@,
            final(self).import_id == old(self).import_id,
    {
        match self.phase {
            SenderPhase::AwaitHello => match m {
                ControlMessage::Hello { .. } => {
                    self.phase = SenderPhase::AwaitList;
                    Ok(self.hello_ack())
                },
                _ => Err(SenderError::ExpectedHello),
            },
            SenderPhase::AwaitList => match m {
                ControlMessage::ListDevices => {
                    self.phase = SenderPhase::AwaitAttach;
                    Ok(ControlMessage::DeviceList { devices: clone_devices(devices) })
                },
                _ => Err(SenderError::ExpectedListDevices),
            },
            _ => match m {
                ControlMessage::Attach { busid, mode } => self.attach(busid, mode, devices),
                _ => Err(SenderError::ExpectedAttach),
            },
        }
    }

    fn attach(&mut self, busid: String, mode: String, devices: &[DeviceSummary]) -> (r: Result<
        ControlMessage,
        SenderError,
    >)
        requires
            old(self).phase == SenderPhase::AwaitAttach,
        ensures
            ({
                let step = old(self)@.step(
                    ControlModel::Attach { busid: busid@, mode: mode@ },
                    devices_model(devices@),
                );
                match r {
                    Ok(reply) => step == Ok::<(SenderModel, ControlModel), SenderErrorModel>(
                        (final(self)@, reply@),
                    ) && final(self).chosen < devices@.len() && first_with_busid(
                        devices_model(devices@),
                        busid@,
                    ) == Some(devices@[final(self).chosen as int]@) && devices@[final(self).chosen as int].busid@ == busid@ && (forall|j: int|
                        0 <= j < final(self).chosen ==> (#[trigger] devices@[j]).busid@ != busid@),
                    Err(e) => step == Err::<(SenderModel, ControlModel), SenderErrorModel>(e@)
                        && *final(self) == *old(self),
                }
            }),
    {
        let ghost all = devices_model(devices@);
        let mut i: usize = 0;
        assert(all.skip(0) =~= all);
        while i < devices.len() && !same_text(devices[i].busid.as_str(), busid.as_str())
            invariant
                i <= devices@.len(),
                all == devices_model(devices@),
                first_with_busid(all, busid@) == first_with_busid(all.skip(i as int), busid@),
                busid_index(all, busid@) == i + busid_index(all.skip(i as int), busid@),
                forall|j: int| 0 <= j < i ==> (#[trigger] devices@[j]).busid@ != busid@,
            decreases devices@.len() - i,
        {
            assert(all.skip(i as int).skip(1) =~= all.skip(i + 1));
            i += 1;
        }
        if i == devices.len() {
            return Err(SenderError::UnknownBusid { busid });
        }
        let mode_ok = match self.kind {
            SenderKind::MockHid => same_text(mode.as_str(), "hid"),
            SenderKind::MockUsbip => same_text(mode.as_str(), "usbip"),
            SenderKind::Pump => same_text(mode.as_str(), "usbip"),
            SenderKind::Hidraw => true,
        };
        if !mode_ok {
            return Err(SenderError::WrongMode { mode });
        }
        self.phase = SenderPhase::Attached;
        self.chosen = i;
        if self.kind == SenderKind::MockHid || self.kind == SenderKind::Hidraw {
            Ok(
                ControlMessage::AttachOk {
                    busid: devices[i].busid.clone(),
                    import_id: self.import_id,
                },
            )
        } else {
            Ok(ControlMessage::AttachOkUsbip { info: attach_info(&devices[i], self.import_id) })
        }
    }
}

/// The mouse that the mock HID sender exposes.
pub open spec fn mock_mouse_model(busid: Seq<char>) -> DeviceModel {
    DeviceModel {
        busid,
        vendor_id: 0xBADD,
        product_id: 0xC0DE,
        manufacturer: Some("builtbyzero"@),
        product: Some("zerowire-mock mouse"@),
        serial: None,
        device_class: 0,
        device_subclass: 0,
        device_protocol: 0,
        is_hid: true,
    }
}

/// A mass-storage device of a USB/IP sender.
pub open spec fn storage_model(
    busid: Seq<char>,
    vendor_id: u16,
    product_id: u16,
    product: Seq<char>,
) -> DeviceModel {
    DeviceModel {
        busid,
        vendor_id,
        product_id,
        manufacturer: Some("builtbyzero"@),
        product: Some(product),
        serial: Some("sim-0001"@),
        device_class: 0x08,
        device_subclass: 0x06,
        device_protocol: 0x50,
        is_hid: false,
    }
}

/// The mouse that the mock HID sender exposes.
pub fn mock_mouse(busid: &str) -> (d: DeviceSummary)
    ensures
        d@ == mock_mouse_model(busid@),
        d.busid@ == busid@,
        d.is_hid && d.device_class == 0,
        d.vendor_id == 0xBADD && d.product_id == 0xC0DE,
{
    DeviceSummary {
        busid: busid.to_owned(),
        vendor_id: 0xBADD,
        product_id: 0xC0DE,
        manufacturer: Some("builtbyzero".to_owned()),
        product: Some("zerowire-mock mouse".to_owned()),
        serial: None,
        device_class: 0,
        device_subclass: 0,
        device_protocol: 0,
        is_hid: true,
    }
}

fn storage(busid: &str, vendor_id: u16, product_id: u16, product: &str) -> (d: DeviceSummary)
    ensures
        d@ == storage_model(busid@, vendor_id, product_id, product@),
{
    DeviceSummary {
        busid: busid.to_owned(),
        vendor_id,
        product_id,
        manufacturer: Some("builtbyzero".to_owned()),
        product: Some(product.to_owned()),
        serial: Some("sim-0001".to_owned()),
        device_class: 0x08,
        device_subclass: 0x06,
        device_protocol: 0x50,
        is_hid: false,
    }
}

/// The mass-storage device that the mock USB/IP sender exposes.
pub fn mock_storage(busid: &str) -> (d: DeviceSummary)
    ensures
        d@ == storage_model(busid@, 0x046d, 0xc52b, "zerowire-mock mass-storage"@),
        d.busid@ == busid@,
        !d.is_hid && d.device_class == 8 && d.device_subclass == 6 && d.device_protocol == 0x50,
        d.vendor_id == 0x046d && d.product_id == 0xc52b,
{
    storage(busid, 0x046d, 0xc52b, "zerowire-mock mass-storage")
}

/// The mass-storage device that the URB pump exposes.
pub fn pump_storage(busid: &str, vendor_id: u16, product_id: u16) -> (d: DeviceSummary)
    ensures
        d@ == storage_model(
            busid@,
            vendor_id,
            product_id,
            "zerowire-android-pump fake mass-storage"@,
        ),
        d.busid@ == busid@,
        !d.is_hid && d.device_class == 8 && d.device_subclass == 6 && d.device_protocol == 0x50,
        d.vendor_id == vendor_id && d.product_id == product_id,
{
    storage(busid, vendor_id, product_id, "zerowire-android-pump fake mass-storage")
}

/// Why a bind request is refused.
#[derive(Debug, PartialEq, Eq)]
pub enum BindError {
    /// The envelope came on another channel.
    WrongChannel(Channel),
    /// The payload is no HID frame.
    Frame(HidError),
    /// The frame is no bind request.
    NotBind(HidOp),
}

/// What a sender makes of the envelope behind `ATTACH_OK`: the binding id and
/// the request's body. A request without an id gets 1.
pub open spec fn bind_outcome(channel: Channel, payload: Seq<u8>) -> Result<
    (u8, Seq<u8>),
    BindError,
> {
    if channel != Channel::Hid {
        Err(BindError::WrongChannel(channel))
    } else {
        match hid_outcome(payload) {
            Err(e) => Err(BindError::Frame(e)),
            Ok((op, bind_id, _, body)) => if op != HidOp::Bind {
                Err(BindError::NotBind(op))
            } else {
                Ok((if bind_id == 0 {
                    1
                } else {
                    bind_id
                }, body))
            },
        }
    }
}

/// Takes the envelope behind `ATTACH_OK`.
pub fn accept_bind<'a>(channel: Channel, payload: &'a [u8]) -> (r: Result<
    (u8, &'a [u8]),
    BindError,
>)
    ensures
        match r {
            Ok((id, body)) => bind_outcome(channel, payload@) == Ok::<(u8, Seq<u8>), BindError>(
                (id, body@),
            ),
            Err(e) => bind_outcome(channel, payload@) == Err::<(u8, Seq<u8>), BindError>(e),
        },
        r is Ok <==> channel == Channel::Hid && payload@.len() >= 4 && payload@[0] == 0x01,
        r matches Ok((id, body)) ==> id == (if payload@[1] == 0 {
            1
        } else {
            payload@[1]
        }) && body@ == payload@.skip(4),
        channel != Channel::Hid <==> r matches Err(BindError::WrongChannel(_)),
{
    if channel != Channel::Hid {
        return Err(BindError::WrongChannel(channel));
    }
    let frame = match HidFrame::parse(payload) {
        Ok(f) => f,
        Err(e) => return Err(BindError::Frame(e)),
    };
    if frame.op != HidOp::Bind {
        return Err(BindError::NotBind(frame.op));
    }
    let bind_id: u8 = if frame.bind_id == 0 {
        1
    } else {
        frame.bind_id
    };
    Ok((bind_id, frame.body))
}

/// Whether a bind request names the attached device.
pub fn bind_matches(request: &BindRequest, attached: &DeviceSummary) -> (r: bool)
    ensures
        r == (request.busid@ == attached.busid@),
{
    same_text(request.busid.as_str(), attached.busid.as_str())
}

/// The kind of a HID interface by its boot protocol: 1 is a keyboard, 2 a
/// mouse.
pub open spec fn interface_kind(class: u8, protocol: u8) -> DeviceKind {
    if class == 0x03 && protocol == 1 {
        DeviceKind::Keyboard
    } else if class == 0x03 && protocol == 2 {
        DeviceKind::Mouse
    } else {
        DeviceKind::Other
    }
}

/// The kind of a HID interface.
pub fn kind_for(interface_class: u8, interface_protocol: u8) -> (k: DeviceKind)
    ensures
        k == interface_kind(interface_class, interface_protocol),
        k == DeviceKind::Keyboard <==> interface_class == 3 && interface_protocol == 1,
        k == DeviceKind::Mouse <==> interface_class == 3 && interface_protocol == 2,
        k != DeviceKind::Gamepad,
{
    if interface_class == 0x03 {
        match interface_protocol {
            1 => DeviceKind::Keyboard,
            2 => DeviceKind::Mouse,
            _ => DeviceKind::Other,
        }
    } else {
        DeviceKind::Other
    }
}

/// Whether `m` is what the `/dev/hidraw` sender tells of a bound device. A
/// device without a product name goes by its path.
pub open spec fn tells_of(
    m: BindAckMeta,
    d: DeviceModel,
    kind: DeviceKind,
    hidraw_path: Seq<char>,
) -> bool {
    &&& m.busid@ == d.busid
    &&& m.kind == kind
    &&& m.vendor_id == d.vendor_id
    &&& m.product_id == d.product_id
    &&& m.name@ == match d.product {
        Some(p) => p,
        None => "hidraw "@ + hidraw_path,
    }
}

/// What the `/dev/hidraw` sender tells of a bound device.
pub fn bind_ack_meta(d: &DeviceSummary, kind: DeviceKind, hidraw_path: &str) -> (m: BindAckMeta)
    ensures
        tells_of(m, d@, kind, hidraw_path@),
{
    let name = match &d.product {
        Some(p) => p.clone(),
        None => {
            let mut s = String::new();
            push_str(&mut s, "hidraw ");
            push_str(&mut s, hidraw_path);
            assert(s@ =~= "hidraw "@ + hidraw_path@);
            s
        },
    };
    BindAckMeta {
        busid: d.busid.clone(),
        kind,
        vendor_id: d.vendor_id,
        product_id: d.product_id,
        name,
    }
}

/// The report descriptor that goes with a device kind.
pub open spec fn descriptor_of(kind: DeviceKind) -> Seq<u8> {
    match kind {
        DeviceKind::Mouse => mouse_descriptor_bytes(),
        DeviceKind::Keyboard => keyboard_descriptor_bytes(),
        _ => Seq::empty(),
    }
}

/// The report descriptor that goes with a device kind.
pub fn descriptor_for(kind: DeviceKind) -> (v: Vec<u8>)
    ensures
        v@ == descriptor_of(kind),
        v@.len() <= 52,
        kind == DeviceKind::Mouse ==> kind_of_usage(first_desktop_usage(v@, None)) == Kind::Mouse,
        kind == DeviceKind::Keyboard ==> kind_of_usage(first_desktop_usage(v@, None))
            == Kind::Keyboard,
        kind == DeviceKind::Gamepad || kind == DeviceKind::Other ==> v@.len() == 0,
{
    match kind {
        DeviceKind::Mouse => mouse_descriptor(),
        DeviceKind::Keyboard => keyboard_descriptor(),
        _ => Vec::new(),
    }
}

/// The acknowledgement of a bind request: what is told of the attached device
/// and its report descriptor. There is none for a request that names another
/// device.
pub fn acknowledge_bind(chosen: &ExposedHidraw, request: &BindRequest) -> (r: Option<
    (BindAckMeta, Vec<u8>),
>)
    ensures
        r is Some <==> request.busid@ == chosen.summary.busid@,
        r matches Some((meta, descriptor)) ==> {
            let kind = interface_kind(chosen.interface_class, chosen.interface_protocol);
            &&& tells_of(meta, chosen.summary@, kind, chosen.hidraw_path@)
            &&& descriptor@ == descriptor_of(kind)
            &&& descriptor@.len() <= 52
        },
        r matches Some((meta, _)) ==> {
            &&& meta.busid@ == request.busid@
            &&& meta.vendor_id == chosen.summary.vendor_id
            &&& meta.product_id == chosen.summary.product_id
            &&& meta.kind == DeviceKind::Mouse <==> chosen.interface_class == 3
                && chosen.interface_protocol == 2
            &&& meta.kind == DeviceKind::Keyboard <==> chosen.interface_class == 3
                && chosen.interface_protocol == 1
            &&& chosen.summary.product matches Some(p) ==> meta.name@ == p@
            &&& chosen.summary.product is None ==> meta.name@ == "hidraw "@ + chosen.hidraw_path@
        },
{
    if !bind_matches(request, &chosen.summary) {
        return None;
    }
    let kind = kind_for(chosen.interface_class, chosen.interface_protocol);
    let meta = bind_ack_meta(&chosen.summary, kind, chosen.hidraw_path.as_str());
    Some((meta, descriptor_for(kind)))
}

/// The envelope that acknowledges a binding.
pub fn bind_ack_envelope(bind_id: u8, meta: &[u8], descriptor: &[u8]) -> (v: Vec<u8>)
    requires
        meta@.len() <= 0xFFFF,
        meta@.len() + descriptor@.len() + 6 <= MAX_PAYLOAD,
    ensures
        v@ == envelope_bytes(
            Channel::Hid,
            hid_frame_bytes(HidOp::BindAck, bind_id, 0, bind_ack_body(meta@, descriptor@)),
        ),
{
    let body = encode_bind_ack_body(meta, descriptor);
    hid_envelope(&HidFrame::new(HidOp::BindAck, bind_id, 0, body.as_slice()))
}

/// The envelope that ends a binding, with its reason as JSON.
pub fn unbind_envelope(bind_id: u8, reason: &[u8]) -> (v: Vec<u8>)
    requires
        reason@.len() <= MAX_PAYLOAD - 4,
    ensures
        v@ == envelope_bytes(Channel::Hid, hid_frame_bytes(HidOp::Unbind, bind_id, 0, reason@)),
{
    hid_envelope(&HidFrame::new(HidOp::Unbind, bind_id, 0, reason))
}

/// The reports of one binding, numbered from 1 and wrapping.
#[derive(Debug)]
pub struct ReportStream {
    pub bind_id: u8,
    pub seq: u16,
}

impl ReportStream {
    /// A stream before its first report.
    pub fn new(bind_id: u8) -> (s: ReportStream)
        ensures
            s.bind_id == bind_id,
            s.seq == 0,
    {
        ReportStream { bind_id, seq: 0 }
    }

    /// The envelope of the next report.
    pub fn next(&mut self, body: &[u8]) -> (v: Vec<u8>)
        requires
            body@.len() <= MAX_PAYLOAD - 4,
        ensures
            final(self).bind_id == old(self).bind_id,
            final(self).seq == next_seq(old(self).seq),
            final(self).seq == (old(self).seq + 1) % 0x1_0000,
            v@ == envelope_bytes(
                Channel::Hid,
                hid_frame_bytes(
                    HidOp::ReportIn,
                    old(self).bind_id,
                    next_seq(old(self).seq),
                    body@,
                ),
            ),
    {
        self.seq = if self.seq == 0xFFFF {
            0
        } else {
            self.seq + 1
        };
        hid_envelope(&HidFrame::new(HidOp::ReportIn, self.bind_id, self.seq, body))
    }
}

/// The sequence number of report `i`, counted from 0.
pub open spec fn report_seq(i: int) -> u16 {
    ((i + 1) % 0x1_0000) as u16
}

/// The payload of the mock sender's report `i`: three steps to the right.
pub open spec fn mock_report_payload(bind_id: u8, i: int) -> Seq<u8> {
    hid_frame_bytes(HidOp::ReportIn, bind_id, report_seq(i), seq![0u8, 3, 0, 0])
}

/// The envelope of the mock sender's report `i`.
pub fn mock_report_envelope(bind_id: u8, i: u32) -> (v: Vec<u8>)
    ensures
        v@ == envelope_bytes(Channel::Hid, mock_report_payload(bind_id, i as int)),
        v@.len() == 16,
        v@[8] == 0x10,
        v@[9] == bind_id,
        v@[10] * 0x100 + v@[11] == (i + 1) % 0x1_0000,
        v@[12] == 0 && v@[13] == 3 && v@[14] == 0 && v@[15] == 0,
{
    let seq: u16 = ((i as u64 + 1) % 0x1_0000) as u16;
    let report: [u8; 4] = [0, 3, 0, 0];
    assert(report@ =~= seq![0u8, 3, 0, 0]);
    hid_envelope(&HidFrame::new(HidOp::ReportIn, bind_id, seq, &report))
}

/// The payload of a made-up USB/IP packet: 48 bytes that receivers treat as
/// opaque.
pub open spec fn mock_urb_payload(import_id: u32) -> Seq<u8> {
    usbip_frame_bytes(import_id, Seq::new(48, |i: int| 0xABu8))
}

/// The envelope of a made-up USB/IP packet.
pub fn mock_urb_envelope(import_id: u32) -> (v: Vec<u8>)
    ensures
        v@ == envelope_bytes(Channel::Usbip, mock_urb_payload(import_id)),
        v@.len() == 60,
        v@[8] * 0x100_0000 + v@[9] * 0x1_0000 + v@[10] * 0x100 + v@[11] == import_id,
        forall|i: int| 12 <= i < 60 ==> #[trigger] v@[i] == 0xAB,
{
    let body: [u8; 48] = [0xABu8; 48];
    assert(body@ =~= Seq::new(48, |i: int| 0xABu8));
    let frame = UsbipFrame::new(import_id, &body).encode();
    match Envelope::new(Channel::Usbip, frame.as_slice()).encode() {
        Ok(v) => v,
        Err(_) => Vec::new(),
    }
}

/// A handshake of a receiver with a sender, three messages each way: the final
/// states and what the receiver does next.
pub open spec fn handshake(
    client: ClientModel,
    hello: ControlModel,
    sender: SenderModel,
    devices: Seq<DeviceModel>,
) -> Option<(ClientModel, ActionModel, SenderModel)> {
    match sender.step(hello, devices) {
        Err(_) => None,
        Ok((s1, ack)) => match client.step(ack) {
            Ok((c1, ActionModel::Send(list))) => match s1.step(list, devices) {
                Err(_) => None,
                Ok((s2, listed)) => match c1.step(listed) {
                    Ok((c2, ActionModel::Send(attach))) => match s2.step(attach, devices) {
                        Err(_) => None,
                        Ok((s3, attached)) => match c2.step(attached) {
                            Err(_) => None,
                            Ok((c3, action)) => Some((c3, action, s3)),
                        },
                    },
                    _ => None,
                },
            },
            _ => None,
        },
    }
}

/// Whether a sender attaches in the mode that a receiver asks for.
pub open spec fn modes_agree(client: ClientKind, sender: SenderKind) -> bool {
    if client == ClientKind::HidReceive || client == ClientKind::HidSource {
        sender == SenderKind::MockHid || sender == SenderKind::Hidraw
    } else {
        sender == SenderKind::MockUsbip || sender == SenderKind::Pump
    }
}

/// A receiver and a sender of the same mode complete their handshake on every
/// device list from which the receiver can choose, and agree on the device:
/// a HID receiver goes on to bind it, a USB/IP receiver learns exactly what
/// the sender tells of it.
#[verifier::spinoff_prover]
#[verifier::rlimit(40)]
pub proof fn lemma_handshake_succeeds(
    kind: ClientKind,
    busid: Option<Seq<char>>,
    client: Seq<char>,
    supports: Seq<Seq<char>>,
    sender: SenderModel,
    devices: Seq<DeviceModel>,
)
    requires
        sender.phase == SenderPhase::AwaitHello,
        modes_agree(kind, sender.kind),
        ClientModel::start(kind, busid).choice(devices) is Ok,
    ensures
        ({
            let chosen = ClientModel::start(kind, busid).choice(devices)->Ok_0;
            let attached = first_with_busid(devices, chosen.busid)->Some_0;
            let end = handshake(
                ClientModel::start(kind, busid),
                ControlModel::Hello { version: 1, client, supports },
                sender,
                devices,
            );
            &&& first_with_busid(devices, chosen.busid) is Some
            &&& attached.busid == chosen.busid
            &&& end is Some
            &&& end->Some_0.0.phase == ClientPhase::Attached
            &&& end->Some_0.2.phase == SenderPhase::Attached
            &&& end->Some_0.2.chosen < devices.len()
            &&& devices[end->Some_0.2.chosen as int] == attached
            &&& end->Some_0.1 == if kind == ClientKind::HidReceive || kind == ClientKind::HidSource {
                ActionModel::Bind { busid: chosen.busid }
            } else {
                ActionModel::Attached { info: attach_model(attached, sender.import_id) }
            }
        }),
{
    let c0 = ClientModel::start(kind, busid);
    let chosen = c0.choice(devices)->Ok_0;
    lemma_choice_is_listed(c0, devices);
    lemma_busid_choice(devices, chosen.busid);
    lemma_busid_index(devices, chosen.busid);
}

/// What a receiver chooses is in the list.
proof fn lemma_choice_is_listed(c: ClientModel, devices: Seq<DeviceModel>)
    requires
        c.choice(devices) is Ok,
    ensures
        devices.contains(c.choice(devices)->Ok_0),
{
    if c.busid is Some {
        lemma_busid_choice(devices, c.busid->Some_0);
    }
    lemma_hid_choice(devices);
    if devices.len() > 0 {
        assert(devices.contains(devices[0]));
    }
}

/// Reports are numbered without a gap: each follows the one before, so a
/// receiver that gets them all never sees a jump.
pub proof fn lemma_reports_in_sequence(i: int)
    requires
        0 <= i,
    ensures
        report_seq(i + 1) == next_seq(report_seq(i)),
        seq_jump(report_seq(i), report_seq(i + 1)) is None,
        forall|seq: u16| seq_jump(seq, #[trigger] next_seq(seq)) is None,
{
}

/// A bound receiver injects every report of the mock sender in turn, without
/// noticing a jump.
pub proof fn lemma_mock_report_is_injected(s: HidSession, bind_id: u8, i: int)
    requires
        0 <= i,
        s.device is Some,
        s.last_seq == if i == 0 {
            0
        } else {
            report_seq(i - 1)
        },
    ensures
        s.step(Channel::Hid, mock_report_payload(bind_id, i)) matches Ok(
            HidStep::Report { seq, jump: None, .. },
        ) && seq == report_seq(i),
        forall|after: HidSession| #[trigger]
            s.moves_to(Channel::Hid, mock_report_payload(bind_id, i), after) ==> after.last_seq
                == report_seq(i) && after.reports_seen == s.reports_seen + 1,
{
    lemma_hid_frame_round_trip(HidOp::ReportIn, bind_id, report_seq(i), seq![0u8, 3, 0, 0]);
}

/// A log-writing receiver after the first `n` reports of the mock sender.
pub open spec fn source_after(s: SourceSession, bind_id: u8, n: nat) -> Option<SourceSession>
    decreases n,
{
    if n == 0 {
        Some(s)
    } else {
        match source_after(s, bind_id, (n - 1) as nat) {
            None => None,
            Some(t) => match t.step(Channel::Hid, mock_report_payload(bind_id, n - 1)) {
                Err(_) => None,
                Ok((_, _, u)) => Some(u),
            },
        }
    }
}

/// A log-writing receiver counts every report of the mock sender.
#[verifier::spinoff_prover]
#[verifier::rlimit(40)]
pub proof fn lemma_mock_reports_are_counted(s: SourceSession, bind_id: u8, n: nat)
    requires
        s.report_count + n <= u32::MAX,
    ensures
        source_after(s, bind_id, n) == Some(
            SourceSession { report_count: (s.report_count + n) as u32, ..s },
        ),
    decreases n,
{
    if n > 0 {
        lemma_mock_reports_are_counted(s, bind_id, (n - 1) as nat);
        lemma_hid_frame_round_trip(
            HidOp::ReportIn,
            bind_id,
            report_seq(n - 1),
            seq![0u8, 3, 0, 0],
        );
    }
}

/// A receiver's bind request is accepted with the id it asks for.
pub proof fn lemma_bind_is_accepted(bind_id: u8, body: Seq<u8>)
    requires
        bind_id != 0,
    ensures
        bind_outcome(Channel::Hid, hid_frame_bytes(HidOp::Bind, bind_id, 0, body)) == Ok::<
            (u8, Seq<u8>),
            BindError,
        >((bind_id, body)),
{
    lemma_hid_frame_round_trip(HidOp::Bind, bind_id, 0, body);
}

/// What a sender answers to `HELLO`, and that it answers nothing else first: its
/// own name, and what it supports by its kind.
pub proof fn lemma_sender_answers_hello(
    s: SenderModel,
    m: ControlModel,
    devices: Seq<DeviceModel>,
)
    requires
        s.phase == SenderPhase::AwaitHello,
    ensures
        !(m is Hello) ==> s.step(m, devices) == Err::<(SenderModel, ControlModel), SenderErrorModel>(
            SenderErrorModel::ExpectedHello,
        ),
        m is Hello ==> (s.step(m, devices) matches Ok((after, ControlModel::HelloAck {
            sender_id,
            name,
            supports,
        })) && after == (SenderModel { phase: SenderPhase::AwaitList, ..s }) && name == s.name
            && sender_id == match s.kind {
            SenderKind::MockHid | SenderKind::MockUsbip => "mock-sender"@,
            SenderKind::Pump => "simulate-android-pump"@,
            SenderKind::Hidraw => "linux-sender"@,
        } && supports == match s.kind {
            SenderKind::MockHid | SenderKind::MockUsbip => seq!["hid-fastlane/1"@, "usbip/1.1.1"@],
            SenderKind::Pump => seq!["usbip/1.1.1"@],
            SenderKind::Hidraw => seq!["hid-fastlane/1"@],
        }),
{
}

/// What a sender answers to `LIST_DEVICES`, and that nothing else will do then:
/// all the devices it exposes, in order.
pub proof fn lemma_sender_lists_devices(
    s: SenderModel,
    m: ControlModel,
    devices: Seq<DeviceModel>,
)
    requires
        s.phase == SenderPhase::AwaitList,
    ensures
        m is ListDevices ==> s.step(m, devices) == Ok::<
            (SenderModel, ControlModel),
            SenderErrorModel,
        >(
            (
                SenderModel { phase: SenderPhase::AwaitAttach, ..s },
                ControlModel::DeviceList { devices },
            ),
        ),
        !(m is ListDevices) ==> s.step(m, devices) == Err::<
            (SenderModel, ControlModel),
            SenderErrorModel,
        >(SenderErrorModel::ExpectedListDevices),
{
}

/// What a sender answers to `ATTACH`: a busid that none of its devices has is
/// unknown; a mode other than its own is wrong, unless it is the `/dev/hidraw`
/// sender, which takes any; else the first device with that busid is attached,
/// and a USB/IP sender tells all about it.
pub proof fn lemma_sender_attaches(
    s: SenderModel,
    busid: Seq<char>,
    mode: Seq<char>,
    devices: Seq<DeviceModel>,
)
    requires
        s.phase == SenderPhase::AwaitAttach,
    ensures
        ({
            let r = s.step(ControlModel::Attach { busid, mode }, devices);
            let unknown = forall|i: int|
                0 <= i < devices.len() ==> (#[trigger] devices[i]).busid != busid;
            let wrong_mode = s.kind == SenderKind::MockHid && mode != "hid"@ || (s.kind
                == SenderKind::MockUsbip || s.kind == SenderKind::Pump) && mode != "usbip"@;
            &&& r == Err::<(SenderModel, ControlModel), SenderErrorModel>(
                SenderErrorModel::UnknownBusid { busid },
            ) <==> unknown
            &&& r == Err::<(SenderModel, ControlModel), SenderErrorModel>(
                SenderErrorModel::WrongMode { mode },
            ) <==> !unknown && wrong_mode
            &&& r is Ok <==> !unknown && !wrong_mode
            &&& r matches Ok((after, reply)) ==> {
                let d = devices[after.chosen as int];
                &&& after.phase == SenderPhase::Attached
                &&& after.kind == s.kind && after.name == s.name && after.import_id == s.import_id
                &&& after.chosen < devices.len()
                &&& d.busid == busid
                &&& forall|j: int| 0 <= j < after.chosen ==> (#[trigger] devices[j]).busid != busid
                &&& s.kind == SenderKind::MockHid || s.kind == SenderKind::Hidraw ==> reply == (
                ControlModel::AttachOk { busid, import_id: s.import_id })
                &&& s.kind == SenderKind::MockUsbip || s.kind == SenderKind::Pump ==> (
                reply matches ControlModel::AttachOkUsbip { info } && info.busid == busid
                    && info.import_id == s.import_id && info.devid == 0x1_0002 && info.speed == 3
                    && info.vendor_id == d.vendor_id && info.product_id == d.product_id
                    && info.descriptor_hex == Some(
                    hex_bytes(device_descriptor_bytes(d.vendor_id, d.product_id, d.device_class)),
                ))
            }
        }),
{
    lemma_busid_choice(devices, busid);
    lemma_busid_index(devices, busid);
    lemma_busid_index_first(devices, busid);
}

/// No device in front of the first with a busid has it.
proof fn lemma_busid_index_first(devices: Seq<DeviceModel>, busid: Seq<char>)
    ensures
        forall|j: int|
            0 <= j < busid_index(devices, busid) && j < devices.len() ==> (
            #[trigger] devices[j]).busid != busid,
    decreases devices.len(),
{
    if devices.len() > 0 && devices[0].busid != busid {
        let rest = devices.skip(1);
        lemma_busid_index_first(rest, busid);
        assert forall|j: int|
            0 <= j < busid_index(devices, busid) && j < devices.len() implies (
        #[trigger] devices[j]).busid != busid by {
            if j > 0 {
                assert(rest[j - 1] == devices[j]);
            }
        }
    }
}

/// Anything but `ATTACH` behind the list ends the handshake.
pub proof fn lemma_only_attach_will_do(s: SenderModel, m: ControlModel, devices: Seq<DeviceModel>)
    requires
        s.phase == SenderPhase::AwaitAttach,
        !(m is Attach),
    ensures
        s.step(m, devices) == Err::<(SenderModel, ControlModel), SenderErrorModel>(
            SenderErrorModel::ExpectedAttach,
        ),
{
}

/// A receiver that names a device gets that device: the whole handshake with a
/// sender of its mode ends with the first device of that busid on both sides.
#[verifier::spinoff_prover]
#[verifier::rlimit(40)]
pub proof fn lemma_named_device_is_agreed_on(
    kind: ClientKind,
    wanted: Seq<char>,
    client: Seq<char>,
    supports: Seq<Seq<char>>,
    sender: SenderModel,
    devices: Seq<DeviceModel>,
    k: int,
)
    requires
        sender.phase == SenderPhase::AwaitHello,
        kind == ClientKind::HidReceive ==> sender.kind == SenderKind::MockHid || sender.kind
            == SenderKind::Hidraw,
        kind != ClientKind::HidReceive ==> sender.kind == SenderKind::MockUsbip || sender.kind
            == SenderKind::Pump,
        kind != ClientKind::HidSource,
        0 <= k < devices.len(),
        devices[k].busid == wanted,
        forall|j: int| 0 <= j < k ==> (#[trigger] devices[j]).busid != wanted,
    ensures
        handshake(
            ClientModel::start(kind, Some(wanted)),
            ControlModel::Hello { version: 1, client, supports },
            sender,
            devices,
        ) matches Some((receiver, action, after)) && receiver.phase == ClientPhase::Attached
            && receiver.chosen == Some(devices[k]) && after.phase == SenderPhase::Attached
            && after.chosen == k && (kind == ClientKind::HidReceive ==> action == (
        ActionModel::Bind { busid: wanted })) && (kind != ClientKind::HidReceive ==> (
        action matches ActionModel::Attached { info } && info.busid == wanted && info.import_id
            == sender.import_id && info.vendor_id == devices[k].vendor_id && info.product_id
            == devices[k].product_id)),
{
    lemma_first_with_busid_at(devices, wanted, k);
}

/// A report of the mock sender moves the pointer three steps to the right and
/// nothing else.
pub proof fn lemma_mock_report_moves_right(prev: u8)
    ensures
        rel_sum(mouse_events(prev, seq![0u8, 3, 0, 0]), 0x00) == 3,
        rel_sum(mouse_events(prev, seq![0u8, 3, 0, 0]), 0x01) == 0,
        rel_sum(mouse_events(prev, seq![0u8, 3, 0, 0]), 0x08) == 0,
{
    lemma_mouse_moves_each_axis(prev, seq![0u8, 3, 0, 0]);
}

} // verus!
