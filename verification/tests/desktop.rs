use sha2::Digest;
use zerowire::desktop::cli::{print_devices, short_fp};
use zerowire::desktop::client::{
    bind_envelope, bind_request, handshake, hello, listed_devices, pick_device, pick_hid_device, ClientAction, ClientError,
    ClientKind, ClientPhase, ClientSession, CLIENT_NAME,
};
use zerowire::desktop::discovery::{
    choose_name, dial_target, pick_by_name, receive_target, resolve_sender, sender_line,
    TargetError,
};
use zerowire::desktop::hid_descriptor::{classify, keyboard_descriptor, mouse_descriptor, Kind};
use zerowire::desktop::hidraw::{
    attribute_text, attribute_u16, expose, expose_all, find_usb_device_ancestor, is_usb_device,
    is_wanted, name_order, parse_uevent, parse_vidpid, HidrawAttributes, HidrawError, VidPidError,
};
use zerowire::desktop::receiver::{
    hid_envelope, open_device, report_trace, synth_mouse_meta, utc_stamp, HidEvent, HidSession,
    ReportTrace, SourceEvent, SourceSession, ENVELOPE_HEADER_LEN,
};
use zerowire::desktop::report::{apply_report, hid_usage_to_linux_key, InputState};
use zerowire::desktop::sender::{
    accept_bind, acknowledge_bind, attach_info, bind_ack_envelope, bind_ack_meta, bind_matches, descriptor_for,
    kind_for, mock_mouse, mock_report_envelope, mock_storage, mock_urb_envelope, pump_storage,
    unbind_envelope, BindError, ReportStream, SenderError, SenderPhase, SenderSession,
};
use zerowire::desktop::tls::{serial_number, PinnedPeerVerifier, PskIdentity};
use zerowire::desktop::uinput::{
    capabilities, ioctl_io, ioctl_iow, setup_block, Capability, DeviceProfile, InputEvent,
    UinputDevice, BTN_EXTRA, BTN_LEFT, BTN_SIDE, EV_KEY, EV_REL, EV_SYN, REL_HWHEEL, REL_WHEEL,
    REL_X, REL_Y, UI_DEV_CREATE, UI_DEV_DESTROY, UI_DEV_SETUP, UI_SET_EVBIT, UI_SET_KEYBIT,
    UI_SET_RELBIT,
};
use zerowire::desktop::usbip::{
    attach_line, detach_line, find_free_port, synth_device_descriptor, vhci_available,
    SimulatedAttach,
};
use zerowire::desktop::usbip_receiver::{
    ends_session, plan_attach, AttachPlan, LogEvent, LogSession,
};
use zerowire::desktop::wire::{control_payload, envelope_to_send, own_envelope, payload_len};
use zerowire::protocol::control::{ControlMessage, DeviceSummary};
use zerowire::protocol::discovery::{build_txt, ResolvedSender};
use zerowire::protocol::envelope::{Channel, Envelope, EnvelopeError, MAX_PAYLOAD};
use zerowire::protocol::hid::{BindAckMeta, DeviceKind, HidError, HidFrame, HidOp};
use zerowire::protocol::usbip::{UsbipAttachInfo, UsbipError, UsbipFrame};

// ---------------- report descriptors ----------------

#[test]
fn classifies_mouse() {
    assert_eq!(classify(&mouse_descriptor()), Kind::Mouse);
}

#[test]
fn classifies_keyboard() {
    assert_eq!(classify(&keyboard_descriptor()), Kind::Keyboard);
}

#[test]
fn classifies_other_when_empty() {
    assert_eq!(classify(&[]), Kind::Other);
}

#[test]
fn classifies_other_when_garbage() {
    assert_eq!(classify(&[0xFF, 0xFF, 0xFF]), Kind::Other);
}

#[test]
fn classifies_by_the_first_desktop_usage() {
    // A usage under another page does not count.
    assert_eq!(classify(&[0x05, 0x09, 0x09, 0x02, 0x05, 0x01, 0x09, 0x05]), Kind::Gamepad);
    assert_eq!(classify(&[0x05, 0x01, 0x09, 0x04]), Kind::Gamepad);
    assert_eq!(classify(&[0x05, 0x01, 0x09, 0x30, 0x09, 0x02]), Kind::Other);
    // Items of two and four bytes count by their whole value.
    assert_eq!(classify(&[0x06, 0x01, 0x00, 0x0A, 0x06, 0x00]), Kind::Keyboard);
    assert_eq!(classify(&[0x07, 0x01, 0x00, 0x00, 0x00, 0x09, 0x02]), Kind::Mouse);
    assert_eq!(classify(&[0x06, 0x01, 0xFF, 0x09, 0x02]), Kind::Other);
    assert_eq!(classify(&[0x07, 0x01, 0x00, 0x00, 0x01, 0x09, 0x02]), Kind::Other);
    assert_eq!(classify(&[0x05, 0x01, 0x0A, 0x02, 0x01]), Kind::Other);
    assert_eq!(classify(&[0x05, 0x01, 0x0B, 0x02, 0x00, 0x00, 0x00]), Kind::Mouse);
    // A four-byte usage may carry its page, which then counts.
    assert_eq!(classify(&[0x05, 0x01, 0x0B, 0x02, 0x00, 0x01, 0x00]), Kind::Mouse);
    assert_eq!(classify(&[0x05, 0x09, 0x0B, 0x06, 0x00, 0x01, 0x00]), Kind::Keyboard);
    assert_eq!(
        classify(&[0x05, 0x01, 0x0B, 0x02, 0x00, 0x09, 0x00, 0x09, 0x05]),
        Kind::Gamepad
    );
    // A usage that is cut off does not.
    assert_eq!(classify(&[0x05, 0x01, 0x09]), Kind::Other);
    assert_eq!(mouse_descriptor().len(), 52);
    assert_eq!(keyboard_descriptor(), [0x05, 0x01, 0x09, 0x06, 0xA1, 0x01, 0xC0]);
}

// ---------------- reports ----------------

#[test]
fn hid_usage_q_maps_to_key_q() {
    // 0x14 (Q) is KEY_Q = 16
    assert_eq!(hid_usage_to_linux_key(0x14), Some(16));
}

#[test]
fn hid_usage_space_maps_to_key_space() {
    assert_eq!(hid_usage_to_linux_key(0x2C), Some(57));
}

#[test]
fn hid_usage_unknown_returns_none() {
    assert_eq!(hid_usage_to_linux_key(0xFF), None);
}

#[test]
fn hid_usages_never_share_a_key() {
    let mut codes = Vec::new();
    for usage in 0..=255u8 {
        if let Some(code) = hid_usage_to_linux_key(usage) {
            assert!(!codes.contains(&code));
            codes.push(code);
        }
    }
    assert_eq!(codes.len(), 26 + 10 + 17 + 12 + 4);
    assert_eq!(hid_usage_to_linux_key(0x04), Some(30));
    assert_eq!(hid_usage_to_linux_key(0x1D), Some(44));
    assert_eq!(hid_usage_to_linux_key(0x27), Some(11));
    assert_eq!(hid_usage_to_linux_key(0x3A), Some(59));
    assert_eq!(hid_usage_to_linux_key(0x43), Some(68));
    assert_eq!(hid_usage_to_linux_key(0x44), Some(87));
    assert_eq!(hid_usage_to_linux_key(0x45), Some(88));
    assert_eq!(hid_usage_to_linux_key(0x52), Some(103));
    assert_eq!(hid_usage_to_linux_key(0x32), None);
}

fn device() -> UinputDevice {
    UinputDevice { live: true, pending: Vec::new() }
}

fn ev(type_: u16, code: u16, value: i32) -> InputEvent {
    InputEvent { type_, code, value }
}

const SYN: InputEvent = InputEvent { type_: EV_SYN, code: 0, value: 0 };

#[test]
fn mouse_report_emits_edges_motion_and_wheel() {
    let mut d = device();
    let mut s = InputState::new();
    apply_report(&mut d, &mut s, &[0b1_0001, 5, 0xFB, 0xFF]);
    assert_eq!(
        d.take_pending(),
        [
            ev(EV_KEY, BTN_LEFT, 1),
            SYN,
            ev(EV_KEY, BTN_EXTRA, 1),
            SYN,
            ev(EV_REL, REL_X, 5),
            ev(EV_REL, REL_Y, -5),
            SYN,
            ev(EV_REL, REL_WHEEL, -1),
            SYN
        ]
    );
    // The same buttons again fire nothing; what is left is the motion.
    apply_report(&mut d, &mut s, &[0b1_0001, 0, 1]);
    assert_eq!(d.take_pending(), [ev(EV_REL, REL_Y, 1), SYN]);
    // Letting go of one and pressing another.
    apply_report(&mut d, &mut s, &[0b0_1001]);
    assert_eq!(
        d.take_pending(),
        [ev(EV_KEY, BTN_SIDE, 1), SYN, ev(EV_KEY, BTN_EXTRA, 0), SYN]
    );
    apply_report(&mut d, &mut s, &[]);
    assert_eq!(d.take_pending(), []);
    assert_eq!(s.buttons, 0b0_1001);
}

#[test]
fn long_reports_are_mouse_reports() {
    let mut d = device();
    let mut s = InputState::new();
    apply_report(&mut d, &mut s, &[0, 127, 0x80, 0, 9, 9]);
    assert_eq!(
        d.take_pending(),
        [ev(EV_REL, REL_X, 127), ev(EV_REL, REL_Y, -128), SYN]
    );
}

#[test]
fn keyboard_report_emits_changes_once() {
    let mut d = device();
    let mut s = InputState::new();
    // Left shift and A.
    apply_report(&mut d, &mut s, &[0b10, 0, 0x04, 0, 0, 0, 0, 0]);
    assert_eq!(d.take_pending(), [ev(EV_KEY, 42, 1), SYN, ev(EV_KEY, 30, 1), SYN]);
    // The same report again.
    apply_report(&mut d, &mut s, &[0b10, 0, 0x04, 0, 0, 0, 0, 0]);
    assert_eq!(d.take_pending(), []);
    // A up, Q and an unknown usage down, right meta in place of left shift.
    apply_report(&mut d, &mut s, &[0b1000_0000, 0, 0x14, 0xFE, 0, 0, 0, 0]);
    assert_eq!(
        d.take_pending(),
        [
            ev(EV_KEY, 42, 0),
            SYN,
            ev(EV_KEY, 126, 1),
            SYN,
            ev(EV_KEY, 30, 0),
            SYN,
            ev(EV_KEY, 16, 1),
            SYN
        ]
    );
}

/// After any run of reports the device has down exactly what they hold.
#[test]
fn device_stays_in_step_with_reports() {
    let mut d = device();
    let mut s = InputState::new();
    let mut down: Vec<u16> = Vec::new();
    let mut seed: u32 = 1;
    let mut next = || {
        seed = seed.wrapping_mul(1664525).wrapping_add(1013904223);
        (seed >> 24) as u8
    };
    for round in 0..500 {
        let body: Vec<u8> = if round % 2 == 0 {
            vec![next(), next(), next(), next()]
        } else {
            // Few different usages, so that keys stay held and repeat.
            vec![next(), 0, next() % 9, next() % 9, next() % 9, 0x2C, 0, next()]
        };
        apply_report(&mut d, &mut s, &body);
        for e in d.take_pending() {
            if e.type_ == EV_KEY {
                down.retain(|c| *c != e.code);
                if e.value == 1 {
                    down.push(e.code);
                }
            }
        }
        let mut held: Vec<u16> =
            (0..5u16).filter(|i| s.buttons >> i & 1 == 1).map(|i| BTN_LEFT + i).collect();
        let modifiers = [29, 42, 56, 125, 97, 54, 100, 126];
        held.extend((0..8).filter(|i| s.modifiers >> i & 1 == 1).map(|i| modifiers[i]));
        held.extend(s.keys.iter().filter_map(|k| hid_usage_to_linux_key(*k)));
        held.sort();
        held.dedup();
        down.sort();
        assert_eq!(down, held);
    }
}

// ---------------- uinput ----------------

#[test]
fn ioctl_numbers_match_kernel_headers() {
    // UI_DEV_CREATE = _IO('U', 1) = 0x5501
    assert_eq!(UI_DEV_CREATE, 0x5501);
    // UI_DEV_DESTROY = _IO('U', 2) = 0x5502
    assert_eq!(UI_DEV_DESTROY, 0x5502);
    // UI_SET_EVBIT = _IOW('U', 100, int)
    //   = (1 << 30) | (4 << 16) | (0x55 << 8) | 100
    //   = 0x40045564
    assert_eq!(UI_SET_EVBIT, 0x40045564);
    // UI_SET_KEYBIT = 0x40045565
    assert_eq!(UI_SET_KEYBIT, 0x40045565);
    // UI_SET_RELBIT = 0x40045566
    assert_eq!(UI_SET_RELBIT, 0x40045566);
}

#[test]
fn ioctl_constants_are_the_macros() {
    assert_eq!(UI_DEV_CREATE, ioctl_io(0x55, 1));
    assert_eq!(UI_DEV_DESTROY, ioctl_io(0x55, 2));
    assert_eq!(UI_SET_EVBIT, ioctl_iow(0x55, 100, 4));
    assert_eq!(UI_SET_KEYBIT, ioctl_iow(0x55, 101, 4));
    assert_eq!(UI_SET_RELBIT, ioctl_iow(0x55, 102, 4));
    assert_eq!(UI_DEV_SETUP, ioctl_iow(0x55, 3, 92));
}

#[test]
fn device_emits_and_is_destroyed() {
    let profile =
        DeviceProfile::Mouse { name: "m".to_string(), vendor_id: 1, product_id: 2 };
    let (mut d, caps, setup) = UinputDevice::create(&profile);
    assert_eq!(caps, capabilities(&profile));
    assert_eq!(setup.vendor, 1);
    d.mouse_move(0, 0);
    d.mouse_wheel(2, -3);
    d.mouse_button(BTN_LEFT, true);
    d.key(30, false);
    assert_eq!(
        d.take_pending(),
        [
            SYN,
            ev(EV_REL, REL_WHEEL, 2),
            ev(EV_REL, REL_HWHEEL, -3),
            SYN,
            ev(EV_KEY, BTN_LEFT, 1),
            SYN,
            ev(EV_KEY, 30, 0),
            SYN
        ]
    );
    // The kernel is asked until it has removed the device.
    assert!(d.destroy());
    assert!(d.destroy());
    d.destroyed();
    assert!(!d.destroy());
}

#[test]
fn capabilities_by_profile() {
    let mouse = DeviceProfile::Mouse { name: String::new(), vendor_id: 0, product_id: 0 };
    let caps = capabilities(&mouse);
    assert_eq!(caps.len(), 12);
    assert_eq!(caps[0], Capability::Event(EV_KEY));
    assert_eq!(caps[7], Capability::Key(BTN_EXTRA));
    assert_eq!(caps[11], Capability::Rel(REL_HWHEEL));
    let keyboard = DeviceProfile::Keyboard { name: String::new(), vendor_id: 0, product_id: 0 };
    let caps = capabilities(&keyboard);
    assert_eq!(caps.len(), 257);
    assert_eq!(caps[1], Capability::Event(EV_SYN));
    assert_eq!(caps[2], Capability::Key(1));
    assert_eq!(caps[256], Capability::Key(255));
}

#[test]
fn setup_name_is_cut_and_terminated() {
    let profile = DeviceProfile::Keyboard {
        name: "k".repeat(100),
        vendor_id: 0xBADD,
        product_id: 0xC0DE,
    };
    let s = setup_block(&profile);
    assert_eq!((s.bustype, s.vendor, s.product, s.version), (3, 0xBADD, 0xC0DE, 0x0100));
    assert_eq!(s.name[78], b'k');
    assert_eq!(s.name[79], 0);
    let short =
        setup_block(&DeviceProfile::Mouse { name: "é".to_string(), vendor_id: 0, product_id: 0 });
    assert_eq!(&short.name[..3], &[0xC3, 0xA9, 0]);
}

// ---------------- receiver ----------------

#[test]
fn open_device_takes_mice_and_keyboards() {
    let mut meta = synth_mouse_meta("1-2");
    assert_eq!(meta.busid, "1-2");
    assert_eq!(meta.name, "zerowire-mock mouse");
    match open_device(&meta) {
        Ok(DeviceProfile::Mouse { name, vendor_id, product_id }) => {
            assert_eq!(name, "zerowire: zerowire-mock mouse");
            assert_eq!((vendor_id, product_id), (0xBADD, 0xC0DE));
        }
        _ => panic!("no mouse"),
    }
    meta.kind = DeviceKind::Keyboard;
    assert!(matches!(open_device(&meta), Ok(DeviceProfile::Keyboard { .. })));
    meta.kind = DeviceKind::Gamepad;
    assert!(matches!(open_device(&meta), Err(DeviceKind::Gamepad)));
    meta.kind = DeviceKind::Other;
    assert!(matches!(open_device(&meta), Err(DeviceKind::Other)));
}

fn report(seq: u16, body: &[u8]) -> Vec<u8> {
    HidFrame::new(HidOp::ReportIn, 1, seq, body).encode()
}

#[test]
fn hid_session_injects_reports_once_bound() {
    let mut s = HidSession::new();
    let early = report(4, &[0, 1]);
    assert!(matches!(
        s.on_envelope(Channel::Hid, &early),
        Ok(HidEvent::EarlyReport { seq: 4, jump: None })
    ));
    let (d, _, _) = UinputDevice::create(&open_device(&synth_mouse_meta("1-2")).unwrap());
    s.device_opened(d);
    let follows = report(5, &[0, 3, 0, 0]);
    assert!(matches!(
        s.on_envelope(Channel::Hid, &follows),
        Ok(HidEvent::Report { seq: 5, jump: None, .. })
    ));
    assert_eq!(
        s.device.as_mut().unwrap().take_pending(),
        [ev(EV_REL, REL_X, 3), SYN]
    );
    let jumps = report(9, &[0]);
    assert!(matches!(
        s.on_envelope(Channel::Hid, &jumps),
        Ok(HidEvent::Report { seq: 9, jump: Some(5), .. })
    ));
    assert_eq!(s.reports_seen, 2);
    assert_eq!(s.last_seq, 9);
    // Sequence numbers wrap, and nothing is known behind 0.
    s.last_seq = 0xFFFF;
    let wrapped = report(0, &[0]);
    assert!(matches!(
        s.on_envelope(Channel::Hid, &wrapped),
        Ok(HidEvent::Report { seq: 0, jump: None, .. })
    ));
    let any = report(77, &[0]);
    assert!(matches!(
        s.on_envelope(Channel::Hid, &any),
        Ok(HidEvent::Report { seq: 77, jump: None, .. })
    ));
}

#[test]
fn hid_session_handles_the_other_frames() {
    let mut s = HidSession::new();
    assert!(matches!(s.on_envelope(Channel::Control, b"{}"), Ok(HidEvent::Ignored)));
    assert!(matches!(s.on_envelope(Channel::Usbip, &[]), Ok(HidEvent::Ignored)));
    assert!(matches!(s.on_envelope(Channel::Keepalive, &[]), Ok(HidEvent::Ignored)));
    assert!(matches!(s.on_envelope(Channel::Hid, &[1]), Err(HidError::Short(1))));
    let unbind = HidFrame::new(HidOp::Unbind, 1, 0, b"bye").encode();
    assert!(matches!(
        s.on_envelope(Channel::Hid, &unbind),
        Ok(HidEvent::Unbind { body: b"bye" })
    ));
    let out = HidFrame::new(HidOp::ReportOut, 1, 0, &[1]).encode();
    assert!(matches!(
        s.on_envelope(Channel::Hid, &out),
        Ok(HidEvent::Unhandled { op: HidOp::ReportOut })
    ));
    let ack = bind_ack_envelope(1, b"{\"a\":1}", &[9]);
    let (env, _) = Envelope::parse(&ack).unwrap().unwrap();
    match s.on_envelope(env.channel, env.payload) {
        Ok(HidEvent::BindAck { meta, descriptor }) => {
            assert_eq!(meta, b"{\"a\":1}");
            assert_eq!(descriptor, [9]);
        }
        _ => panic!("no bind ack"),
    }
    let cut = HidFrame::new(HidOp::BindAck, 1, 0, &[0, 9, 1]).encode();
    assert!(matches!(s.on_envelope(Channel::Hid, &cut), Err(HidError::Short(3))));
}

#[test]
fn source_session_logs_what_it_gets() {
    let mut s = SourceSession::new();
    let mut log = String::new();
    s.bind_acknowledged(DeviceKind::Mouse, "zerowire-mock \"mouse\"", &mut log);
    for i in 0..6 {
        let env = mock_report_envelope(1, i);
        let (env, _) = Envelope::parse(&env).unwrap().unwrap();
        match s.on_envelope(env.channel, env.payload, &mut log) {
            Ok(SourceEvent::Report { seq, body, trace }) => {
                assert_eq!(seq as u32, i + 1);
                assert_eq!(body, [0, 3, 0, 0]);
                assert_eq!(trace, i < 5);
            }
            _ => panic!("no report"),
        }
    }
    assert!(matches!(
        s.on_envelope(Channel::Control, b"x", &mut log),
        Ok(SourceEvent::Ignored)
    ));
    assert!(matches!(s.on_envelope(Channel::Hid, b"x", &mut log), Err(HidError::Short(1))));
    let unbind = unbind_envelope(1, b"{}");
    let (env, _) = Envelope::parse(&unbind).unwrap().unwrap();
    assert!(matches!(
        s.on_envelope(env.channel, env.payload, &mut log),
        Ok(SourceEvent::Unbind)
    ));
    s.summarize(&mut log);
    let lines: Vec<&str> = log.lines().collect();
    assert_eq!(lines[0], "bind_ack kind=Mouse name=\"zerowire-mock \\\"mouse\\\"\"");
    assert_eq!(lines[1], "report seq=1 bytes=[0, 3, 0, 0]");
    assert_eq!(lines[6], "report seq=6 bytes=[0, 3, 0, 0]");
    assert_eq!(lines[7], "unbind");
    assert_eq!(lines[8], "summary bind_ack=true reports=6");
    assert_eq!(lines.len(), 9);
}

#[test]
fn reports_are_traced_sparingly() {
    assert_eq!(report_trace(5, 0), ReportTrace::Dump);
    assert_eq!(report_trace(6, 999), ReportTrace::Skip);
    assert_eq!(report_trace(6, 1000), ReportTrace::Rate);
}

#[test]
fn timestamps_are_padded() {
    assert_eq!(utc_stamp(1970, 1, 2, 3, 4, 5, 123456), "1970-01-02T03:04:05.123456Z");
    assert_eq!(utc_stamp(2024, 12, 31, 23, 59, 60, 7), "2024-12-31T23:59:60.000007Z");
}

#[test]
fn hid_envelope_wraps_the_frame() {
    let f = HidFrame::new(HidOp::ReportIn, 2, 3, &[4]);
    assert_eq!(hid_envelope(&f), [0x5A, 0x57, 1, 3, 0, 0, 0, 5, 0x10, 2, 0, 3, 4]);
    assert_eq!(ENVELOPE_HEADER_LEN, 8);
}

// ---------------- handshake ----------------

fn summary(busid: &str, is_hid: bool) -> DeviceSummary {
    DeviceSummary {
        busid: busid.to_string(),
        vendor_id: 1,
        product_id: 2,
        manufacturer: None,
        product: None,
        serial: None,
        device_class: 0,
        device_subclass: 0,
        device_protocol: 0,
        is_hid,
    }
}

#[test]
fn picks_devices_by_busid_or_kind() {
    let devs = [summary("1-1", false), summary("1-2", true), summary("1-2", false)];
    assert_eq!(pick_hid_device(&devs, None).unwrap().busid, "1-2");
    assert_eq!(pick_hid_device(&devs, Some("1-1")).unwrap().busid, "1-1");
    assert!(pick_hid_device(&devs, Some("1-2")).unwrap().is_hid);
    assert!(matches!(pick_hid_device(&devs, Some("9")), Err(ClientError::NoSuchBusid)));
    assert!(matches!(pick_hid_device(&devs[..1], None), Err(ClientError::NoHidDevice)));
    assert_eq!(pick_device(&devs, None).unwrap().busid, "1-1");
    assert_eq!(pick_device(&devs, Some("1-2")).unwrap().busid, "1-2");
    assert!(matches!(pick_device(&devs, Some("")), Err(ClientError::NoSuchBusid)));
    assert!(matches!(pick_device(&[], None), Err(ClientError::NoDevice)));
}

/// Runs a handshake until the receiver is done or either side gives up.
fn run_handshake(
    kind: ClientKind,
    busid: Option<String>,
    mut sender: SenderSession,
    devices: &[DeviceSummary],
) -> (Option<ClientAction>, ClientSession, SenderSession) {
    let (mut client, mut message) = ClientSession::start(kind, "test/0", busid);
    loop {
        let reply = match sender.on_control(message, devices) {
            Ok(reply) => reply,
            Err(_) => return (None, client, sender),
        };
        match client.on_control(reply) {
            Ok(ClientAction::Send(m)) => message = m,
            Ok(action) => return (Some(action), client, sender),
            Err(_) => return (None, client, sender),
        }
    }
}

#[test]
fn hid_handshake_with_the_mock_sender() {
    for kind in [ClientKind::HidReceive, ClientKind::HidSource] {
        let (action, client, sender) =
            run_handshake(kind, None, SenderSession::mock_hid(), &[mock_mouse("1-2")]);
        match action {
            Some(ClientAction::Bind { busid }) => assert_eq!(busid, "1-2"),
            _ => panic!("not bound"),
        }
        assert_eq!(client.phase, ClientPhase::Attached);
        assert_eq!(sender.phase, SenderPhase::Attached);
        assert_eq!(sender.chosen, 0);
    }
}

#[test]
fn usbip_handshake_tells_the_device() {
    for (kind, sender, device) in [
        (ClientKind::Usbip, SenderSession::mock_usbip(), mock_storage("3-4")),
        (ClientKind::UsbipTls, SenderSession::pump(42), pump_storage("3-4", 0x1111, 0x2222)),
    ] {
        let id = sender.import_id;
        let devices = [summary("1-1", true), device.clone()];
        let (action, _, sender) =
            run_handshake(kind, Some("3-4".to_string()), sender, &devices);
        match action {
            Some(ClientAction::Attached { info }) => assert_eq!(info, attach_info(&device, id)),
            _ => panic!("not attached"),
        }
        assert_eq!(sender.chosen, 1);
    }
}

#[test]
fn attach_info_is_exact() {
    let info = attach_info(&pump_storage("1-2", 0x046d, 0xc52b), 7);
    assert_eq!(info.busid, "1-2");
    assert_eq!((info.import_id, info.devid, info.speed), (7, 0x0001_0002, 3));
    assert_eq!((info.vendor_id, info.product_id), (0x046d, 0xc52b));
    assert_eq!(info.descriptor_hex.unwrap(), "1201000208000040" .to_string() + "6d042bc50001" + "00000001");
}

#[test]
fn handshake_fails_on_mode_and_busid() {
    let (action, client, sender) =
        run_handshake(ClientKind::Usbip, None, SenderSession::mock_hid(), &[mock_mouse("1-2")]);
    assert!(action.is_none());
    assert_eq!(client.phase, ClientPhase::AwaitAttach);
    assert_eq!(sender.phase, SenderPhase::AwaitAttach);

    let mut sender = SenderSession::mock_usbip();
    let devices = [mock_storage("1-2")];
    let h = hello("c", true, true);
    assert!(sender.on_control(h, &devices).is_ok());
    assert!(matches!(
        sender.on_control(ControlMessage::AuthOk, &devices),
        Err(SenderError::ExpectedListDevices)
    ));
    assert!(sender.on_control(ControlMessage::ListDevices, &devices).is_ok());
    let attach = |busid: &str, mode: &str| ControlMessage::Attach {
        busid: busid.to_string(),
        mode: mode.to_string(),
    };
    match sender.on_control(attach("9-9", "usbip"), &devices) {
        Err(SenderError::UnknownBusid { busid }) => assert_eq!(busid, "9-9"),
        _ => panic!("attached"),
    }
    match sender.on_control(attach("1-2", "hid"), &devices) {
        Err(SenderError::WrongMode { mode }) => assert_eq!(mode, "hid"),
        _ => panic!("attached"),
    }
    assert!(matches!(
        sender.on_control(ControlMessage::ListDevices, &devices),
        Err(SenderError::ExpectedAttach)
    ));
    let mut fresh = SenderSession::pump(1);
    assert!(matches!(
        fresh.on_control(ControlMessage::ListDevices, &devices),
        Err(SenderError::ExpectedHello)
    ));
}

#[test]
fn sender_hello_ack_by_kind() {
    let mut s = SenderSession::hidraw("Desk");
    let ack = s.on_control(hello("c", false, true), &[]).unwrap();
    assert_eq!(
        ack,
        ControlMessage::HelloAck {
            sender_id: "linux-sender".to_string(),
            name: "Desk".to_string(),
            supports: vec!["hid-fastlane/1".to_string()],
        }
    );
    let ack = SenderSession::mock_hid().on_control(hello("c", false, true), &[]).unwrap();
    assert_eq!(
        ack,
        ControlMessage::HelloAck {
            sender_id: "mock-sender".to_string(),
            name: "zerowire-mock".to_string(),
            supports: vec!["hid-fastlane/1".to_string(), "usbip/1.1.1".to_string()],
        }
    );
    let ack = SenderSession::pump(1).on_control(hello("c", true, true), &[]).unwrap();
    assert_eq!(
        ack,
        ControlMessage::HelloAck {
            sender_id: "simulate-android-pump".to_string(),
            name: "zerowire-android-pump".to_string(),
            supports: vec!["usbip/1.1.1".to_string()],
        }
    );
}

#[test]
fn hidraw_sender_attaches_in_any_mode() {
    let mut s = SenderSession::hidraw("Desk");
    let devices = [summary("5-1", true)];
    s.on_control(hello("c", false, true), &devices).unwrap();
    s.on_control(ControlMessage::ListDevices, &devices).unwrap();
    let ok = s
        .on_control(
            ControlMessage::Attach { busid: "5-1".to_string(), mode: "whatever".to_string() },
            &devices,
        )
        .unwrap();
    assert_eq!(ok, ControlMessage::AttachOk { busid: "5-1".to_string(), import_id: 1 });
}

#[test]
fn client_hello_by_kind() {
    let (_, m) = ClientSession::start(ClientKind::HidReceive, "me", None);
    assert_eq!(m, hello("me", false, true));
    let (_, m) = ClientSession::start(ClientKind::UsbipTls, CLIENT_NAME, None);
    assert_eq!(
        m,
        ControlMessage::Hello {
            version: 1,
            client: "zerowire-cli/0.2.0".to_string(),
            supports: vec!["usbip/1.1.1".to_string(), "hid-fastlane/1".to_string()],
        }
    );
}

fn refusal() -> ControlMessage {
    ControlMessage::Error { code: "E1".to_string(), message: "no".to_string() }
}

fn ack() -> ControlMessage {
    ControlMessage::HelloAck {
        sender_id: "s".to_string(),
        name: "n".to_string(),
        supports: vec![],
    }
}

#[test]
fn client_takes_refusals_by_kind() {
    let (mut c, _) = ClientSession::start(ClientKind::HidReceive, "c", None);
    match c.on_control(refusal()) {
        Err(ClientError::Refused { code, message }) => {
            assert_eq!((code.as_str(), message.as_str()), ("E1", "no"))
        }
        _ => panic!("accepted"),
    }
    assert!(matches!(
        c.on_control(ControlMessage::AuthOk),
        Err(ClientError::UnexpectedHelloReply)
    ));
    let (mut c, _) = ClientSession::start(ClientKind::HidSource, "c", None);
    assert!(matches!(c.on_control(refusal()), Err(ClientError::UnexpectedHelloReply)));
    // Over TLS any answer to HELLO will do.
    let (mut c, _) = ClientSession::start(ClientKind::UsbipTls, "c", None);
    assert!(matches!(
        c.on_control(refusal()),
        Ok(ClientAction::Send(ControlMessage::ListDevices))
    ));
    assert!(matches!(c.on_control(ack()), Err(ClientError::NotADeviceList)));
}

#[test]
fn inventories_take_only_what_they_asked_for() {
    assert_eq!(handshake(ack()).unwrap(), ack());
    assert!(matches!(handshake(refusal()), Err(ClientError::Refused { .. })));
    assert!(matches!(
        handshake(ControlMessage::ListDevices),
        Err(ClientError::UnexpectedHelloReply)
    ));
    let list = ControlMessage::DeviceList { devices: vec![summary("1-2", true)] };
    assert_eq!(listed_devices(list).unwrap(), vec![summary("1-2", true)]);
    assert!(matches!(listed_devices(ack()), Err(ClientError::NotADeviceList)));
}

fn attaching(kind: ClientKind) -> ClientSession {
    let (mut c, _) = ClientSession::start(kind, "c", None);
    c.on_control(ack()).unwrap();
    c.on_control(ControlMessage::DeviceList { devices: vec![summary("1-2", true)] }).unwrap();
    c
}

#[test]
fn client_takes_attach_replies_by_kind() {
    let ok = || ControlMessage::AttachOk { busid: "x".to_string(), import_id: 5 };
    let denied =
        || ControlMessage::AttachDenied { busid: "1-2".to_string(), reason: "user".to_string() };
    // An old sender: what it leaves out comes from the device list.
    match attaching(ClientKind::Usbip).on_control(ok()) {
        Ok(ClientAction::Attached { info }) => {
            assert_eq!(
                info,
                UsbipAttachInfo {
                    busid: "x".to_string(),
                    import_id: 5,
                    devid: 0,
                    speed: 2,
                    vendor_id: 1,
                    product_id: 2,
                    descriptor_hex: None,
                }
            );
        }
        _ => panic!("not attached"),
    }
    assert!(matches!(
        attaching(ClientKind::UsbipTls).on_control(ok()),
        Err(ClientError::UnexpectedAttachReply)
    ));
    match attaching(ClientKind::HidReceive).on_control(ok()) {
        Ok(ClientAction::Bind { busid }) => assert_eq!(busid, "1-2"),
        _ => panic!("not bound"),
    }
    match attaching(ClientKind::HidReceive).on_control(denied()) {
        Err(ClientError::Denied { busid, reason }) => {
            assert_eq!((busid.as_str(), reason.as_str()), ("1-2", "user"))
        }
        _ => panic!("not denied"),
    }
    assert!(matches!(
        attaching(ClientKind::HidSource).on_control(denied()),
        Err(ClientError::UnexpectedAttachReply)
    ));
    let info = attach_info(&mock_storage("1-2"), 7);
    assert!(matches!(
        attaching(ClientKind::HidReceive)
            .on_control(ControlMessage::AttachOkUsbip { info: info.clone() }),
        Err(ClientError::UnexpectedAttachReply)
    ));
    match attaching(ClientKind::UsbipTls).on_control(ControlMessage::AttachOkUsbip { info }) {
        Ok(ClientAction::Attached { info }) => assert_eq!(info.import_id, 7),
        _ => panic!("not attached"),
    }
}

#[test]
fn bind_request_and_its_acceptance() {
    let r = bind_request("1-2");
    assert_eq!((r.busid.as_str(), r.want.as_str()), ("1-2", "input"));
    assert!(bind_matches(&r, &summary("1-2", true)));
    assert!(!bind_matches(&r, &summary("1-3", true)));
    let bytes = bind_envelope(b"{}").unwrap();
    let (env, _) = Envelope::parse(&bytes).unwrap().unwrap();
    assert_eq!(accept_bind(env.channel, env.payload), Ok((1, &b"{}"[..])));
    assert_eq!(
        bind_envelope(&vec![0; MAX_PAYLOAD]),
        Err(EnvelopeError::TooLarge(MAX_PAYLOAD + 4))
    );
    let zero = HidFrame::new(HidOp::Bind, 0, 0, &[]).encode();
    assert_eq!(accept_bind(Channel::Hid, &zero), Ok((1, &[][..])));
    let other = HidFrame::new(HidOp::Bind, 200, 0, &[]).encode();
    assert_eq!(accept_bind(Channel::Hid, &other), Ok((200, &[][..])));
    assert_eq!(
        accept_bind(Channel::Control, &zero),
        Err(BindError::WrongChannel(Channel::Control))
    );
    assert_eq!(accept_bind(Channel::Hid, &[1]), Err(BindError::Frame(HidError::Short(1))));
    let unbind = HidFrame::new(HidOp::Unbind, 0, 0, &[]).encode();
    assert_eq!(accept_bind(Channel::Hid, &unbind), Err(BindError::NotBind(HidOp::Unbind)));
}

#[test]
fn sender_describes_what_it_binds() {
    assert_eq!(kind_for(3, 1), DeviceKind::Keyboard);
    assert_eq!(kind_for(3, 2), DeviceKind::Mouse);
    assert_eq!(kind_for(3, 0), DeviceKind::Other);
    assert_eq!(kind_for(8, 2), DeviceKind::Other);
    assert_eq!(descriptor_for(DeviceKind::Mouse), mouse_descriptor());
    assert_eq!(descriptor_for(DeviceKind::Keyboard), keyboard_descriptor());
    assert!(descriptor_for(DeviceKind::Other).is_empty());
    let unnamed = bind_ack_meta(&summary("5-1", true), DeviceKind::Mouse, "/dev/hidraw3");
    assert_eq!(
        unnamed,
        BindAckMeta {
            busid: "5-1".to_string(),
            kind: DeviceKind::Mouse,
            vendor_id: 1,
            product_id: 2,
            name: "hidraw /dev/hidraw3".to_string(),
        }
    );
    assert_eq!(
        bind_ack_meta(&mock_mouse("1"), DeviceKind::Mouse, "x").name,
        "zerowire-mock mouse"
    );
}

#[test]
fn sender_acknowledges_only_the_attached_device() {
    let mut chosen = expose(&attributes(), None).unwrap().unwrap();
    let (meta, descriptor) = acknowledge_bind(&chosen, &bind_request("5-1")).unwrap();
    assert_eq!(
        meta,
        BindAckMeta {
            busid: "5-1".to_string(),
            kind: DeviceKind::Mouse,
            vendor_id: 0xBADD,
            product_id: 0xC0DE,
            name: "hidraw /dev/hidraw0".to_string(),
        }
    );
    assert_eq!(descriptor, mouse_descriptor());
    assert!(acknowledge_bind(&chosen, &bind_request("5-2")).is_none());
    chosen.interface_protocol = 1;
    chosen.summary.product = Some("keys".to_string());
    let (meta, descriptor) = acknowledge_bind(&chosen, &bind_request("5-1")).unwrap();
    assert_eq!((meta.kind, meta.name.as_str()), (DeviceKind::Keyboard, "keys"));
    assert_eq!(descriptor, keyboard_descriptor());
}

#[test]
fn bind_ack_takes_what_fits_an_envelope() {
    let descriptor = vec![7u8; MAX_PAYLOAD - 6 - 2];
    let bytes = bind_ack_envelope(3, b"{}", &descriptor);
    assert_eq!(bytes.len(), 8 + MAX_PAYLOAD);
    let (env, _) = Envelope::parse(&bytes).unwrap().unwrap();
    assert_eq!(HidFrame::parse(env.payload).unwrap().op, HidOp::BindAck);
}

#[test]
fn report_streams_number_from_one_and_wrap() {
    let mut s = ReportStream::new(6);
    let first = s.next(&[9]);
    let (env, _) = Envelope::parse(&first).unwrap().unwrap();
    assert_eq!(
        HidFrame::parse(env.payload).unwrap(),
        HidFrame::new(HidOp::ReportIn, 6, 1, &[9])
    );
    s.seq = 0xFFFF;
    s.next(&[]);
    assert_eq!(s.seq, 0);
    let wrapped = mock_report_envelope(6, 65535);
    let (env, _) = Envelope::parse(&wrapped).unwrap().unwrap();
    assert_eq!(HidFrame::parse(env.payload).unwrap().seq, 0);
}

#[test]
fn mock_urbs_are_opaque_frames() {
    let bytes = mock_urb_envelope(7);
    let (env, _) = Envelope::parse(&bytes).unwrap().unwrap();
    assert_eq!(env.channel, Channel::Usbip);
    let f = UsbipFrame::parse(env.payload).unwrap();
    assert_eq!(f.import_id, 7);
    assert_eq!(f.raw, [0xAB; 48]);
}

// ---------------- vhci ----------------

#[test]
fn descriptor_starts_with_18_01() {
    let d = synth_device_descriptor(0xBADD, 0xC0DE, 0x08);
    assert_eq!(d[0], 0x12);
    assert_eq!(d[1], 0x01);
    // Vendor low byte, vendor high byte.
    assert_eq!(d[8], 0xDD);
    assert_eq!(d[9], 0xBA);
    assert_eq!(d[10], 0xDE);
    assert_eq!(d[11], 0xC0);
    assert_eq!(d[4], 0x08);
}

#[test]
fn vhci_available_does_not_panic() {
    // Either way, no crash.
    let _ = vhci_available(true, false);
    assert!(vhci_available(true, true));
    assert!(!vhci_available(true, false));
    assert!(!vhci_available(false, true));
}

#[test]
fn finds_the_lowest_free_port() {
    let status = "hub port sta spd dev      sockfd local_busid\n\
                  hs  0000 006 002 00010001 000003 1-2\n\
                  hs  0001 004 000 00000000 000000 0-0\n\
                  hs  0002 004 000 00000000 000000 0-0\n";
    assert_eq!(find_free_port(status), Some(1));
    assert_eq!(find_free_port("h\nhs 0007 004\nhs 0003 004\nhs 0001 006"), Some(3));
    // Only state 4 is free, and the order of the rows does not matter.
    let status = "hub port sta spd dev sockfd local_busid\n\
                  hs 0001 005 000 00000000 000000 0-0\n\
                  hs 0003 004 000 00000000 000000 0-0\n\
                  hs 0002 004 000 00000000 000000 0-0\n";
    assert_eq!(find_free_port(status), Some(2));
    assert_eq!(find_free_port("h\nhs 0001 005\n"), None);
    // The heading, short rows and rows that are no numbers do not count.
    assert_eq!(find_free_port("hs 0000 004"), None);
    assert_eq!(find_free_port("h\n\nhs\nhs 0\nhs x 4\nhs 256 4\nhs 1 y\n  hs\t+9 4 \r\n"), Some(9));
    assert_eq!(find_free_port(""), None);
}

fn info() -> UsbipAttachInfo {
    UsbipAttachInfo {
        busid: "1-2".to_string(),
        import_id: 7,
        devid: 0x0001_0002,
        speed: 3,
        vendor_id: 0xBADD,
        product_id: 0xC0DE,
        descriptor_hex: Some("deadbeef".to_string()),
    }
}

#[test]
fn sysfs_lines_are_exact() {
    assert_eq!(attach_line(3, 17, &info()), "3 17 65538 3");
    assert_eq!(attach_line(0, -1, &info()), "0 -1 65538 3");
    assert_eq!(detach_line(12), "12");
}

#[test]
fn simulated_attach_writes_transcript() {
    let mut body = String::new();
    {
        let sa = SimulatedAttach::create(&info(), &mut body);
        sa.record_urb(7, 1, 64, &mut body);
        sa.record_urb(7, 2, 64, &mut body);
        assert_eq!(sa.port(), 7);
        assert_eq!(sa.busid(), "1-2");
        sa.detach(&mut body);
    }
    assert!(body.contains("sim-attach"));
    assert!(body.contains("busid=1-2"));
    assert!(body.contains("sim-urb"));
    assert!(body.contains("sim-detach"));
    let lines: Vec<&str> = body.lines().collect();
    assert_eq!(
        lines,
        [
            "sim-attach port=7 busid=1-2 import_id=7 devid=0x10002 speed=3 vid=badd pid=c0de",
            "sim-descriptor 1-2 bytes=4",
            "sim-urb port=7 import_id=7 seq=1 bytes=64",
            "sim-urb port=7 import_id=7 seq=2 bytes=64",
            "sim-detach port=7 busid=1-2",
        ]
    );
}

/// The logging receive path against a stub sender: shake hands, send one
/// packet, hang up. The transcript records the attach and the packet.
#[test]
fn simulated_receiver_logs_one_urb() {
    let device = DeviceSummary {
        busid: "1-3".to_string(),
        vendor_id: 0x046d,
        product_id: 0xc52b,
        manufacturer: None,
        product: Some("stub mass-storage".to_string()),
        serial: None,
        device_class: 0x08,
        device_subclass: 0x06,
        device_protocol: 0x50,
        is_hid: false,
    };
    let (mut client, _) = ClientSession::start(ClientKind::Usbip, "test-client", None);
    client
        .on_control(ControlMessage::HelloAck {
            sender_id: "test".to_string(),
            name: "stub".to_string(),
            supports: vec!["usbip/1.1.1".to_string()],
        })
        .unwrap();
    client.on_control(ControlMessage::DeviceList { devices: vec![device] }).unwrap();
    let attached = client
        .on_control(ControlMessage::AttachOkUsbip {
            info: UsbipAttachInfo {
                busid: "1-3".to_string(),
                import_id: 42,
                devid: 0x0001_0003,
                speed: 3,
                vendor_id: 0x046d,
                product_id: 0xc52b,
                descriptor_hex: None,
            },
        })
        .unwrap();
    let info = match attached {
        ClientAction::Attached { info } => info,
        _ => panic!("not attached"),
    };
    assert_eq!(plan_attach(false, true, None, false), AttachPlan::Log);
    let mut body = String::new();
    let mut session = LogSession::new(SimulatedAttach::create(&info, &mut body), false);
    let urb = UsbipFrame::new(42, &[0u8; 32]).encode();
    let env = Envelope::new(Channel::Usbip, &urb).encode().unwrap();
    let (env, _) = Envelope::parse(&env).unwrap().unwrap();
    assert_eq!(session.on_envelope(env.channel, env.payload, &mut body), Ok(LogEvent::Logged));
    assert!(body.contains("sim-attach"), "{body}");
    assert!(body.contains("busid=1-3"), "{body}");
    assert!(body.contains("sim-urb"), "{body}");
    assert!(body.lines().filter(|l| l.starts_with("sim-urb")).count() >= 1);
}

#[test]
fn log_session_counts_and_wraps() {
    let mut log = String::new();
    let mut s = LogSession::new(SimulatedAttach { port: 9, busid: "b".to_string() }, false);
    s.frames = u32::MAX;
    assert_eq!(s.on_envelope(Channel::Usbip, &[0, 0, 0, 5, 1, 1], &mut log), Ok(LogEvent::Logged));
    assert_eq!(s.frames, 0);
    assert_eq!(log, "sim-urb port=9 import_id=5 seq=0 bytes=2\n");
    assert_eq!(s.on_envelope(Channel::Usbip, &[1], &mut log), Err(UsbipError::Short(1)));
    assert_eq!(s.on_envelope(Channel::Control, &[1], &mut log), Ok(LogEvent::Control));
    assert_eq!(s.on_envelope(Channel::Keepalive, &[], &mut log), Ok(LogEvent::Ignored));
    assert_eq!(s.on_envelope(Channel::Hid, &[], &mut log), Ok(LogEvent::Ignored));
    assert_eq!(log.lines().count(), 1);
    // The sender's Unbind ends the session; other HID frames do not.
    let unbind = HidFrame::new(HidOp::Unbind, 1, 0, b"{}").encode();
    assert_eq!(s.on_envelope(Channel::Hid, &unbind, &mut log), Ok(LogEvent::Unbound));
    let other = HidFrame::new(HidOp::ReportIn, 1, 0, b"{}").encode();
    assert_eq!(s.on_envelope(Channel::Hid, &other, &mut log), Ok(LogEvent::Ignored));
    // Over TLS neither control messages nor HID frames count.
    s.tls = true;
    assert_eq!(s.on_envelope(Channel::Control, &[1], &mut log), Ok(LogEvent::Ignored));
    assert_eq!(s.on_envelope(Channel::Hid, &unbind, &mut log), Ok(LogEvent::Ignored));
    assert_eq!(log.lines().count(), 1);
    assert!(ends_session(&refusal()));
    assert!(!ends_session(&ControlMessage::AuthOk));
}

#[test]
fn attach_plans() {
    assert_eq!(plan_attach(false, true, Some(3), true), AttachPlan::Drive(3));
    assert_eq!(plan_attach(true, true, Some(3), true), AttachPlan::Drive(3));
    assert_eq!(plan_attach(true, true, None, true), AttachPlan::Log);
    assert_eq!(plan_attach(false, true, None, false), AttachPlan::Log);
    assert_eq!(plan_attach(true, false, None, true), AttachPlan::NeedsTranscript);
    assert_eq!(plan_attach(false, false, Some(3), true), AttachPlan::Kernel);
    assert_eq!(plan_attach(false, false, None, false), AttachPlan::NoKernel);
}

// ---------------- wire ----------------

#[test]
fn envelopes_are_read_in_two_steps() {
    let bytes = envelope_to_send(Channel::Control, b"hi").unwrap();
    let n = payload_len(&bytes[..8]).unwrap();
    assert_eq!(n, 2);
    let env = own_envelope(&bytes[..8], bytes[8..].to_vec()).unwrap();
    assert_eq!(env.channel, Channel::Control);
    assert_eq!(control_payload(env).unwrap(), b"hi");
    let hid = own_envelope(&[0x5A, 0x57, 1, 3, 0, 0, 0, 0], vec![]).unwrap();
    assert_eq!(control_payload(hid), Err(Channel::Hid));
    assert_eq!(
        payload_len(&[0x5A, 0x57, 2, 3, 0xFF, 0xFF, 0xFF, 0xFF]),
        Err(EnvelopeError::BadVersion(2))
    );
    assert_eq!(
        payload_len(&[0x5A, 0x57, 1, 3, 0xFF, 0xFF, 0xFF, 0xFF]),
        Err(EnvelopeError::TooLarge(0xFFFF_FFFF))
    );
    assert!(own_envelope(&[0; 8], vec![]).is_err());
}

// ---------------- tls ----------------

fn identity(code: &str) -> PskIdentity {
    PskIdentity::derive(code).expect("identity derive")
}

#[test]
fn identity_is_deterministic() {
    let a = identity("123456");
    let b = identity("123456");
    assert_eq!(a.fingerprint, b.fingerprint);
    assert_eq!(a.cert_der, b.cert_der);
    assert_eq!(a.key_der, b.key_der);
}

#[test]
fn different_codes_produce_different_certs() {
    let a = identity("123456");
    let b = identity("654321");
    assert_ne!(a.fingerprint, b.fingerprint);
}

fn holds(haystack: &[u8], needle: &[u8]) -> bool {
    haystack.windows(needle.len()).any(|w| w == needle)
}

#[test]
fn certificate_carries_what_it_was_given() {
    let id = identity("matching-psk-42");
    let seed = zerowire::protocol::psk::derive_tls_cert_seed("matching-psk-42");
    // The key is the seed's, the names are in the certificate, and so are the
    // dates and the serial number.
    assert!(holds(&id.key_der, &seed));
    assert!(holds(&id.cert_der, b"zerowire-psk.local"));
    assert!(holds(&id.cert_der, b"zerowire-psk"));
    assert!(holds(&id.cert_der, b"200101000000Z"));
    assert!(holds(&id.cert_der, b"20991231000000Z"));
    let digest: [u8; 32] = sha2::Sha256::digest(seed).into();
    let serial = serial_number(&digest);
    assert_eq!(serial, digest[..16]);
    let first = serial.iter().position(|b| *b != 0).unwrap();
    assert!(holds(&id.cert_der, &serial[first..]));
    let fingerprint: [u8; 32] = sha2::Sha256::digest(&id.cert_der).into();
    assert_eq!(id.fingerprint, fingerprint);
    // Key usage: digitalSignature (bit 0) and keyAgreement (bit 4).
    assert!(holds(&id.cert_der, &[0x55, 0x1D, 0x0F, 0x01, 0x01, 0xFF, 0x04, 0x05, 0x03, 0x03, 0x07, 0x88, 0x00]));
}

#[test]
fn peers_are_pinned_to_the_byte() {
    let a = identity("code");
    let v = PinnedPeerVerifier::new(&a);
    assert!(v.matches(&identity("code").cert_der));
    assert!(!v.matches(&identity("other").cert_der));
    let mut flipped = a.cert_der.clone();
    let last = flipped.len() - 1;
    flipped[last] ^= 1;
    assert!(!v.matches(&flipped));
    assert!(!v.matches(&a.cert_der[..last]));
}

// ---------------- discovery ----------------

fn s(name: &str) -> ResolvedSender {
    ResolvedSender {
        sender_id: "id".to_string(),
        name: name.to_string(),
        host: "127.0.0.1".to_string(),
        port: 1,
        capabilities: vec![],
        version: 1,
    }
}

#[test]
fn pick_prefers_exact() {
    let list = vec![s("Pixel 8"), s("pixel 8 pro")];
    assert_eq!(pick_by_name(&list, "Pixel 8").unwrap().name, "Pixel 8");
}

#[test]
fn pick_falls_back_to_case_insensitive() {
    let list = vec![s("Pixel 8")];
    assert_eq!(pick_by_name(&list, "pixel 8").unwrap().name, "Pixel 8");
}

#[test]
fn pick_falls_back_to_substring() {
    let list = vec![s("My Pixel 8 (test)")];
    assert_eq!(pick_by_name(&list, "pixel").unwrap().name, "My Pixel 8 (test)");
}

#[test]
fn pick_misses() {
    let list = vec![s("Pixel 8")];
    assert!(pick_by_name(&list, "Galaxy").is_none());
}

#[test]
fn pick_orders_its_rules() {
    let list = vec![s("xxPIXELxx"), s("PIXEL"), s("Pixel")];
    assert_eq!(pick_by_name(&list, "Pixel").unwrap().name, "Pixel");
    assert_eq!(pick_by_name(&list, "pixel").unwrap().name, "PIXEL");
    assert_eq!(pick_by_name(&list, "ixe").unwrap().name, "xxPIXELxx");
    // The first of several, and everything holds the empty text.
    assert_eq!(pick_by_name(&list, "").unwrap().name, "xxPIXELxx");
    assert_eq!(pick_by_name(&[s("ÄRGER")], "ärger").unwrap().name, "ÄRGER");
    assert!(pick_by_name(&[], "").is_none());
}

#[test]
fn receive_target_is_the_picked_sender() {
    let list = vec![s("Tablet"), s("Pixel 8")];
    assert_eq!(receive_target(&list, "pixel").unwrap(), "127.0.0.1:1");
    assert_eq!(receive_target(&list, "Galaxy"), Err(TargetError::NoMatch));
    assert_eq!(receive_target(&[], "Pixel"), Err(TargetError::NoSenders));
}

#[test]
fn choose_name_on_given_lower_case() {
    let names = ["A".to_string(), "b".to_string()];
    let lowered = ["one".to_string(), "two".to_string()];
    assert_eq!(choose_name(&names, &lowered, "b", "one"), Some(1));
    assert_eq!(choose_name(&names, &lowered, "x", "one"), Some(0));
    assert_eq!(choose_name(&names, &lowered, "x", "w"), Some(1));
    assert_eq!(choose_name(&names, &lowered, "x", "z"), None);
}

#[test]
fn advertised_is_resolved() {
    let txt = build_txt("abc", "Pixel 8", 47823, &["usbip", "hid"]);
    let r = resolve_sender(&txt, Some("10.0.0.7"), "phone.local.", 1, "full");
    assert_eq!(
        r,
        ResolvedSender {
            sender_id: "abc".to_string(),
            name: "Pixel 8".to_string(),
            host: "10.0.0.7".to_string(),
            port: 47823,
            capabilities: vec!["usbip".to_string(), "hid".to_string()],
            version: 1,
        }
    );
    assert_eq!(sender_line(&r), "Pixel 8 @ 10.0.0.7:47823  id=abc  v=1  caps=usbip,hid");
    assert_eq!(dial_target(&r), "10.0.0.7:47823");
}

#[test]
fn unresolved_parts_come_from_the_service() {
    let r = resolve_sender(&[], None, "phone.local.", 99, "full._zerowire");
    assert_eq!(
        r,
        ResolvedSender {
            sender_id: String::new(),
            name: "full._zerowire".to_string(),
            host: "phone.local.".to_string(),
            port: 99,
            capabilities: vec![],
            version: 1,
        }
    );
    let pair = |k: &str, v: &str| (k.to_string(), v.to_string());
    let odd = [
        pair("port", "1"),
        pair("port", "70000"),
        pair("v", "300"),
        pair("caps", ""),
        pair("n", "first"),
        pair("n", "last"),
    ];
    let r = resolve_sender(&odd, None, "h", 99, "f");
    assert_eq!((r.port, r.version), (99, 1));
    assert_eq!(r.capabilities, vec![String::new()]);
    assert_eq!(r.name, "last");
}

// ---------------- hidraw ----------------

#[test]
fn uevents_are_pairs() {
    let text = "MAJOR=189\nDEVTYPE=usb_device\nnonsense\nA=b=c\nMAJOR=190\r\n";
    let pairs = parse_uevent(text);
    let expected = [("MAJOR", "189"), ("DEVTYPE", "usb_device"), ("A", "b=c"), ("MAJOR", "190")];
    assert_eq!(pairs.len(), expected.len());
    for (i, (k, v)) in expected.iter().enumerate() {
        assert_eq!((pairs[i].0.as_str(), pairs[i].1.as_str()), (*k, *v));
    }
    assert!(is_usb_device(text));
    assert!(!is_usb_device("DEVTYPE=usb_device\nDEVTYPE=usb_interface\n"));
    assert!(!is_usb_device(""));
}

#[test]
fn finds_the_usb_device_on_the_way_up() {
    let some = |s: &str| Some(s.to_string());
    let way = [None, some("DEVTYPE=usb_interface"), some("DEVTYPE=usb_device"), None];
    assert_eq!(find_usb_device_ancestor(&way), Some(2));
    let mut far = vec![None; 16];
    far.push(some("DEVTYPE=usb_device"));
    assert_eq!(find_usb_device_ancestor(&far), None);
    assert_eq!(find_usb_device_ancestor(&far[1..]), Some(15));
}

#[test]
fn attributes_are_trimmed_hexadecimal() {
    assert_eq!(attribute_text(" Logi \n"), "Logi");
    assert_eq!(attribute_u16("046d\n"), Some(0x046d));
    assert_eq!(attribute_u16("+FFFF"), Some(0xFFFF));
    assert_eq!(attribute_u16("10000"), None);
    assert_eq!(attribute_u16(""), None);
    assert_eq!(attribute_u16("0x1"), None);
}

#[test]
fn vidpid_filters() {
    assert_eq!(parse_vidpid("badd:c0de"), Ok((0xBADD, 0xC0DE)));
    assert_eq!(parse_vidpid("BADD:1"), Ok((0xBADD, 1)));
    assert_eq!(parse_vidpid("badd"), Err(VidPidError::MissingColon));
    assert_eq!(parse_vidpid(":1"), Err(VidPidError::BadVendor));
    assert_eq!(parse_vidpid("1: 1"), Err(VidPidError::BadProduct));
    assert_eq!(parse_vidpid("1:2:3"), Err(VidPidError::BadProduct));
}

fn attributes() -> HidrawAttributes {
    let some = |s: &str| Some(s.to_string());
    HidrawAttributes {
        hidraw_path: "/dev/hidraw0".to_string(),
        device_dir: some("5-1"),
        uevent: "DEVNAME=bus/usb/005/002\n".to_string(),
        id_vendor: "badd\n".to_string(),
        id_product: "c0de\n".to_string(),
        manufacturer: some(" maker\n"),
        product: None,
        serial: some("1\n"),
        device_class: some("ef\n"),
        device_subclass: some("zz"),
        device_protocol: None,
        interface_class: some("03\n"),
        interface_protocol: some("02\n"),
    }
}

#[test]
fn hidraw_devices_are_exposed() {
    let e = expose(&attributes(), None).unwrap().unwrap();
    assert_eq!(
        e.summary,
        DeviceSummary {
            busid: "5-1".to_string(),
            vendor_id: 0xBADD,
            product_id: 0xC0DE,
            manufacturer: Some("maker".to_string()),
            product: None,
            serial: Some("1".to_string()),
            device_class: 0xEF,
            device_subclass: 0,
            device_protocol: 0,
            is_hid: true,
        }
    );
    assert_eq!(e.hidraw_path, "/dev/hidraw0");
    assert_eq!((e.interface_class, e.interface_protocol), (3, 2));
    assert!(expose(&attributes(), Some((0xBADD, 0xC0DE))).unwrap().is_some());
    assert!(expose(&attributes(), Some((0xBADD, 1))).unwrap().is_none());
    let mut a = attributes();
    a.device_dir = None;
    assert_eq!(expose(&a, None).unwrap().unwrap().summary.busid, "bus/usb/005/002");
    a.uevent = String::new();
    assert!(matches!(expose(&a, None), Err(HidrawError::NoBusid)));
    a.id_product = "?".to_string();
    assert!(matches!(expose(&a, None), Err(HidrawError::BadProduct)));
    a.id_vendor = String::new();
    assert!(matches!(expose(&a, None), Err(HidrawError::BadVendor)));
}

fn found_at(path: &str, device_dir: &str) -> HidrawAttributes {
    HidrawAttributes {
        hidraw_path: path.to_string(),
        device_dir: Some(device_dir.to_string()),
        ..attributes()
    }
}

#[test]
fn devices_come_in_the_order_of_their_names() {
    let mut found = vec![
        found_at("/dev/hidraw2", "2"),
        found_at("/dev/hidraw10", "10"),
        found_at("/dev/hidraw1", "1"),
        found_at("/dev/hidraw0", "0"),
        found_at("/dev/hidraw10", "10 again"),
    ];
    assert_eq!(name_order(&found), [3, 2, 1, 4, 0]);
    let busids = |found: &[HidrawAttributes], only: Option<&str>| -> Vec<String> {
        expose_all(found, only, None).unwrap().into_iter().map(|d| d.summary.busid).collect()
    };
    assert_eq!(busids(&found, None), ["0", "1", "10", "10 again", "2"]);
    assert_eq!(busids(&found, Some("/dev/hidraw1")), ["1"]);
    assert!(busids(&found, Some("/dev/hidraw3")).is_empty());
    assert!(busids(&[], None).is_empty());
    assert!(expose_all(&found, None, Some((1, 2))).unwrap().is_empty());
    assert!(is_wanted("a", None) && is_wanted("a", Some("a")) && !is_wanted("a", Some("b")));

    // The first error in that order ends it; one that is passed over is none.
    found[0].id_vendor = "x".to_string();
    found[1].id_product = "x".to_string();
    assert!(matches!(expose_all(&found, None, None), Err(HidrawError::BadProduct)));
    assert!(matches!(
        expose_all(&found, Some("/dev/hidraw2"), None),
        Err(HidrawError::BadVendor)
    ));
    assert_eq!(busids(&found, Some("/dev/hidraw0")), ["0"]);
}

// ---------------- command line ----------------

#[test]
fn device_table_is_exact() {
    assert_eq!(print_devices(&[]), "(no devices exposed by sender)\n");
    let table = print_devices(&[mock_mouse("1-2"), summary("a-long-busid", false)]);
    assert_eq!(
        table,
        "busid       vid:pid     hid   name\n\
         ----------  ----------  ----  ------------------------------\n\
         1-2         badd:c0de   yes   zerowire-mock mouse\n\
         a-long-busid  0001:0002   no    <unnamed>\n"
    );
}

#[test]
fn fingerprints_are_shortened() {
    let mut fp = [0u8; 32];
    fp[0] = 0xAB;
    fp[7] = 0x01;
    fp[8] = 0xFF;
    assert_eq!(short_fp(&fp), "ab00000000000001");
}
