//! Control-channel messages: JSON on the wire, one per envelope.
//!
//! Control is the lowest-volume part of the protocol and trades a few bytes
//! for debuggability. The bulk channels stay binary.

use vstd::prelude::*;

use crate::protocol::usbip::{AttachModel, UsbipAttachInfo};
use crate::text::{clone_opt, opt_text, texts};

verus! {

/// A summary of one USB device the sender currently has plugged in.
#[derive(Debug, PartialEq, Eq)]
pub struct DeviceSummary {
    /// Sender-side stable identifier (`<bus>-<port-chain>`), USB/IP-compatible.
    pub busid: String,
    pub vendor_id: u16,
    pub product_id: u16,
    pub manufacturer: Option<String>,
    pub product: Option<String>,
    pub serial: Option<String>,
    /// `bDeviceClass` from the USB device descriptor.
    pub device_class: u8,
    pub device_subclass: u8,
    pub device_protocol: u8,
    /// True if at least one interface is HID. Receivers may prefer the HID
    /// fast lane for these.
    pub is_hid: bool,
}

/// Model of a `DeviceSummary`.
pub struct DeviceModel {
    pub busid: Seq<char>,
    pub vendor_id: u16,
    pub product_id: u16,
    pub manufacturer: Option<Seq<char>>,
    pub product: Option<Seq<char>>,
    pub serial: Option<Seq<char>>,
    pub device_class: u8,
    pub device_subclass: u8,
    pub device_protocol: u8,
    pub is_hid: bool,
}

impl View for DeviceSummary {
    type V = DeviceModel;

    open spec fn view(&self) -> DeviceModel {
        DeviceModel {
            busid: self.busid@,
            vendor_id: self.vendor_id,
            product_id: self.product_id,
            manufacturer: opt_text(self.manufacturer),
            product: opt_text(self.product),
            serial: opt_text(self.serial),
            device_class: self.device_class,
            device_subclass: self.device_subclass,
            device_protocol: self.device_protocol,
            is_hid: self.is_hid,
        }
    }
}

impl Clone for DeviceSummary {
    fn clone(&self) -> (r: DeviceSummary)
        ensures
            r@ == self@,
    {
        DeviceSummary {
            busid: self.busid.clone(),
            vendor_id: self.vendor_id,
            product_id: self.product_id,
            manufacturer: clone_opt(&self.manufacturer),
            product: clone_opt(&self.product),
            serial: clone_opt(&self.serial),
            device_class: self.device_class,
            device_subclass: self.device_subclass,
            device_protocol: self.device_protocol,
            is_hid: self.is_hid,
        }
    }
}

/// Model of a device list.
pub open spec fn devices_model(v: Seq<DeviceSummary>) -> Seq<DeviceModel> {
    Seq::new(v.len(), |i: int| v[i]@)
}

/// A copy of a device list.
pub fn clone_devices(v: &[DeviceSummary]) -> (r: Vec<DeviceSummary>)
    ensures
        devices_model(r@) == devices_model(v@),
{
    let mut r: Vec<DeviceSummary> = Vec::new();
    let mut i: usize = 0;
    while i < v.len()
        invariant
            i <= v@.len(),
            r@.len() == i,
            forall|j: int| 0 <= j < i ==> (#[trigger] r@[j])@ == v@[j]@,
        decreases v@.len() - i,
    {
        r.push(v[i].clone());
        i += 1;
    }
    assert(devices_model(r@) =~= devices_model(v@));
    r
}

/// All control-channel messages share a discriminator field `op` on the wire.
#[derive(Debug, PartialEq, Eq)]
pub enum ControlMessage {
    /// `HELLO`, receiver to sender. First message after the TLS handshake.
    Hello { version: u8, client: String, supports: Vec<String> },
    /// `HELLO_ACK`, sender to receiver.
    HelloAck { sender_id: String, name: String, supports: Vec<String> },
    /// `AUTH`, receiver to sender. PSK proof (HMAC-SHA256, base64).
    Auth { proof_b64: String },
    /// `AUTH_OK`, sender to receiver.
    AuthOk,
    /// `ERROR`, either direction. Hard-stop with a reason.
    Error { code: String, message: String },
    /// `LIST_DEVICES`, receiver to sender.
    ListDevices,
    /// `DEVICE_LIST`, sender to receiver.
    DeviceList { devices: Vec<DeviceSummary> },
    /// `ATTACH`, receiver to sender. The mode is `"usbip"` or `"hid"`.
    Attach { busid: String, mode: String },
    /// `ATTACH_OK`, sender to receiver. The per-session import id.
    AttachOk { busid: String, import_id: u32 },
    /// `ATTACH_OK_USBIP`, sender to receiver. What the receiver's kernel needs.
    AttachOkUsbip { info: UsbipAttachInfo },
    /// `ATTACH_DENIED`, sender to receiver. The user denied or the device
    /// vanished.
    AttachDenied { busid: String, reason: String },
}

/// Model of a `ControlMessage`.
pub enum ControlModel {
    Hello { version: u8, client: Seq<char>, supports: Seq<Seq<char>> },
    HelloAck { sender_id: Seq<char>, name: Seq<char>, supports: Seq<Seq<char>> },
    Auth { proof_b64: Seq<char> },
    AuthOk,
    Error { code: Seq<char>, message: Seq<char> },
    ListDevices,
    DeviceList { devices: Seq<DeviceModel> },
    Attach { busid: Seq<char>, mode: Seq<char> },
    AttachOk { busid: Seq<char>, import_id: u32 },
    AttachOkUsbip { info: AttachModel },
    AttachDenied { busid: Seq<char>, reason: Seq<char> },
}

impl View for ControlMessage {
    type V = ControlModel;

    open spec fn view(&self) -> ControlModel {
        match *self {
            ControlMessage::Hello { version, client, supports } => ControlModel::Hello {
                version,
                client: client@,
                supports: texts(supports@),
            },
            ControlMessage::HelloAck { sender_id, name, supports } => ControlModel::HelloAck {
                sender_id: sender_id@,
                name: name@,
                supports: texts(supports@),
            },
            ControlMessage::Auth { proof_b64 } => ControlModel::Auth { proof_b64: proof_b64@ },
            ControlMessage::AuthOk => ControlModel::AuthOk,
            ControlMessage::Error { code, message } => ControlModel::Error {
                code: code@,
                message: message@,
            },
            ControlMessage::ListDevices => ControlModel::ListDevices,
            ControlMessage::DeviceList { devices } => ControlModel::DeviceList {
                devices: devices_model(devices@),
            },
            ControlMessage::Attach { busid, mode } => ControlModel::Attach {
                busid: busid@,
                mode: mode@,
            },
            ControlMessage::AttachOk { busid, import_id } => ControlModel::AttachOk {
                busid: busid@,
                import_id,
            },
            ControlMessage::AttachOkUsbip { info } => ControlModel::AttachOkUsbip { info: info@ },
            ControlMessage::AttachDenied { busid, reason } => ControlModel::AttachDenied {
                busid: busid@,
                reason: reason@,
            },
        }
    }
}

} // verus!
