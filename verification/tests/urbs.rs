use zerowire::desktop::urb_driver::{
    script_default, Driver, DriverError, DriverStats, Phase, ScriptedUrb,
};
use zerowire::desktop::urb_pump::{
    dispatch_submit, handle_urb_packet, pump_envelope, run_pump, synth_config_descriptor,
    FakeDevice, FakeEndpoint, PumpError, PumpStats, ENODEV, EOPNOTSUPP,
};
use zerowire::protocol::envelope::{Channel, Envelope, EnvelopeError};
use zerowire::protocol::usbip::{
    CmdSubmit, CmdUnlink, EndpointType, RetSubmit, RetUnlink, UrbOp, UsbipError, UsbipFrame,
    URB_DIR_IN, URB_DIR_OUT, URB_HEADER_LEN,
};

fn enveloped(import_id: u32, raw: &[u8]) -> Vec<u8> {
    let frame = UsbipFrame::new(import_id, raw).encode();
    Envelope::new(Channel::Usbip, &frame).encode().unwrap()
}

/// One CMD_SUBMIT (GET_DESCRIPTOR Device) into the pump gives a well-shaped
/// RET_SUBMIT.
#[test]
fn pump_returns_device_descriptor() {
    let import_id = 7u32;
    let dev = FakeDevice::mass_storage(0x046d, 0xc52b);
    let setup = [0x80, 0x06, 0x00, 0x01, 0x00, 0x00, 18, 0x00];
    let cmd = CmdSubmit {
        seqnum: 1,
        devid: 0x0001_0002,
        direction: URB_DIR_IN,
        ep: 0,
        transfer_flags: 0,
        transfer_buffer_length: 18,
        start_frame: 0,
        number_of_packets: 0,
        interval: 0,
        setup,
    };
    let env = enveloped(import_id, &cmd.encode());
    let mut resp = Vec::new();
    let stats = run_pump(&mut resp, &env, import_id, &dev).unwrap();
    assert_eq!(stats.submits_seen, 1);
    assert_eq!(stats.submits_ok, 1);
    assert_eq!(stats.control_in_bytes, 18);

    // The response: one envelope, channel Usbip, UsbipFrame, then RetSubmit
    // and 18 bytes.
    let (env, _) = Envelope::parse(&resp).unwrap().expect("response envelope");
    let f = UsbipFrame::parse(env.payload).unwrap();
    assert_eq!(f.import_id, import_id);
    let ret = RetSubmit::parse(&f.raw[..URB_HEADER_LEN]).unwrap();
    assert_eq!(ret.seqnum, 1);
    assert_eq!(ret.status, 0);
    assert_eq!(ret.actual_length, 18);
    let body = &f.raw[URB_HEADER_LEN..URB_HEADER_LEN + 18];
    assert_eq!(body[0], 0x12); // bLength = 18
    assert_eq!(body[1], 0x01); // bDescriptorType = DEVICE
    assert_eq!(&body[8..10], &0x046du16.to_le_bytes());
}

/// Bulk IN returns deterministic bytes the receiver can assert on.
#[test]
fn pump_bulk_in_returns_payload() {
    let import_id = 3u32;
    let dev = FakeDevice::mass_storage(0x046d, 0xc52b);
    let cmd = CmdSubmit {
        seqnum: 99,
        devid: 0,
        direction: URB_DIR_IN,
        ep: 1, // bulk IN, address 0x81
        transfer_flags: 0,
        transfer_buffer_length: 16,
        start_frame: 0,
        number_of_packets: 0,
        interval: 0,
        setup: [0; 8],
    };
    let env = enveloped(import_id, &cmd.encode());
    let mut resp = Vec::new();
    let stats = run_pump(&mut resp, &env, import_id, &dev).unwrap();
    assert_eq!(stats.bulk_in_bytes, 16);
    let (env, _) = Envelope::parse(&resp).unwrap().unwrap();
    let f = UsbipFrame::parse(env.payload).unwrap();
    let ret = RetSubmit::parse(&f.raw[..URB_HEADER_LEN]).unwrap();
    assert_eq!(ret.actual_length, 16);
    let body = &f.raw[URB_HEADER_LEN..URB_HEADER_LEN + 16];
    // Byte i should equal (seqnum + i) mod 256 = (99 + i) & 0xff.
    for (i, b) in body.iter().enumerate() {
        assert_eq!(*b, (99 + i) as u8);
    }
}

#[test]
fn pump_unlink_acks() {
    let import_id = 1u32;
    let dev = FakeDevice::mass_storage(0, 0);
    let u = CmdUnlink { seqnum: 22, devid: 0, direction: 0, ep: 0, unlink_seqnum: 7 };
    let env = enveloped(import_id, &u.encode());
    let mut resp = Vec::new();
    let stats = run_pump(&mut resp, &env, import_id, &dev).unwrap();
    assert_eq!(stats.unlinks_seen, 1);
    let (env, _) = Envelope::parse(&resp).unwrap().unwrap();
    let f = UsbipFrame::parse(env.payload).unwrap();
    let r = RetUnlink::parse(&f.raw[..URB_HEADER_LEN]).unwrap();
    assert_eq!(r.seqnum, 22);
    assert_eq!(r.status, 0);
}

fn submit(direction: u32, ep: u32, len: u32, setup: [u8; 8]) -> CmdSubmit {
    CmdSubmit {
        seqnum: 250,
        devid: 0,
        direction,
        ep,
        transfer_flags: 0,
        transfer_buffer_length: len,
        start_frame: 0,
        number_of_packets: 0,
        interval: 0,
        setup,
    }
}

#[test]
fn control_transfers() {
    let dev = FakeDevice::mass_storage(1, 2);
    let get = |kind: u8, lo: u8, hi: u8| {
        let cmd = submit(URB_DIR_IN, 0, 0, [0x80, 6, 0, kind, 0, 0, lo, hi]);
        dispatch_submit(&dev, &cmd, &[])
    };
    assert_eq!(get(1, 8, 0).data, dev.device_descriptor[..8]);
    assert_eq!(get(1, 0, 1).data, dev.device_descriptor);
    assert_eq!(get(2, 9, 0).actual_length, 9);
    assert_eq!(get(2, 255, 255).data, dev.config_descriptor);
    let r = get(3, 8, 0);
    assert_eq!((r.status, r.actual_length, r.data.len()), (EOPNOTSUPP, 0, 0));
    // Another IN request succeeds empty, OUT requests count what they carry.
    let r = dispatch_submit(&dev, &submit(URB_DIR_IN, 0, 4, [0xC0, 1, 0, 0, 0, 0, 4, 0]), &[]);
    assert_eq!((r.status, r.actual_length), (0, 0));
    let r = dispatch_submit(&dev, &submit(URB_DIR_OUT, 0, 3, [0x40, 6, 0, 1, 0, 0, 3, 0]), &[7; 3]);
    assert_eq!((r.status, r.actual_length, r.data.len()), (0, 3, 0));
    let r = dispatch_submit(&dev, &submit(URB_DIR_OUT, 0, 0, [0, 9, 1, 0, 0, 0, 0, 0]), &[]);
    assert_eq!((r.status, r.actual_length), (0, 0));
}

#[test]
fn endpoints_decide_what_becomes_of_a_submit() {
    let mut dev = FakeDevice::mass_storage(1, 2);
    let r = dispatch_submit(&dev, &submit(URB_DIR_IN, 3, 4, [0; 8]), &[]);
    assert_eq!(r.status, ENODEV);
    assert_eq!(ENODEV, -19);
    // Endpoint numbers count modulo 16.
    let r = dispatch_submit(&dev, &submit(URB_DIR_IN, 0x101, 10, [0; 8]), &[]);
    assert_eq!(r.data, [250, 251, 252, 253, 254, 255, 0, 1, 2, 3]);
    let r = dispatch_submit(&dev, &submit(URB_DIR_OUT, 2, 5, [0; 8]), &[1, 2, 3, 4, 5]);
    assert_eq!((r.status, r.actual_length, r.data.len()), (0, 5, 0));
    dev.endpoints.push(FakeEndpoint { address: 0x83, xfer_type: EndpointType::Isochronous });
    dev.endpoints.push(FakeEndpoint { address: 0x84, xfer_type: EndpointType::Interrupt });
    dev.endpoints.push(FakeEndpoint { address: 0x85, xfer_type: EndpointType::Control });
    assert!(dev.endpoints[0].is_in());
    assert!(!dev.endpoints[1].is_in());
    assert_eq!(dispatch_submit(&dev, &submit(URB_DIR_IN, 3, 4, [0; 8]), &[]).status, -95);
    assert_eq!(dispatch_submit(&dev, &submit(URB_DIR_IN, 4, 2, [0; 8]), &[]).data, [250, 251]);
    let get = submit(URB_DIR_IN, 5, 4, [0x80, 6, 0, 1, 0, 0, 2, 0]);
    assert_eq!(dispatch_submit(&dev, &get, &[]).data, [0x12, 0x01]);
    assert_eq!(dev.endpoint(0x02).unwrap().address, 0x02);
    assert!(dev.endpoint(0x01).is_none());
}

#[test]
fn config_descriptor_is_exact() {
    let v = synth_config_descriptor(8, 6, 0x50);
    let mut expected = vec![9, 2, 32, 0, 1, 1, 0, 0x80, 0x32, 9, 4, 0, 0, 2, 8, 6, 0x50, 0];
    expected.extend([7, 5, 0x81, 2, 64, 0, 0, 7, 5, 2, 2, 64, 0, 0]);
    assert_eq!(v, expected);
}

#[test]
fn pump_counts_by_kind() {
    let mut dev = FakeDevice::mass_storage(1, 2);
    dev.endpoints.push(FakeEndpoint { address: 0x83, xfer_type: EndpointType::Isochronous });
    let mut input = Vec::new();
    input.extend(enveloped(5, &submit(URB_DIR_IN, 1, 10, [0; 8]).encode()));
    input.extend(Envelope::new(Channel::Keepalive, &[]).encode().unwrap());
    input.extend(Envelope::new(Channel::Control, b"{}").encode().unwrap());
    let mut out = submit(URB_DIR_OUT, 2, 3, [0; 8]).encode().to_vec();
    out.extend([1, 2, 3, 4]);
    input.extend(enveloped(5, &out));
    input.extend(enveloped(5, &submit(URB_DIR_IN, 3, 10, [0; 8]).encode()));
    input.extend(enveloped(5, &submit(URB_DIR_IN, 9, 10, [0; 8]).encode()));
    // An incomplete envelope ends the session quietly.
    input.extend([0x5A, 0x57, 1]);
    let mut answered = Vec::new();
    let stats = run_pump(&mut answered, &input, 5, &dev).unwrap();
    assert_eq!(
        stats,
        PumpStats {
            submits_seen: 4,
            submits_ok: 2,
            control_in_bytes: 0,
            bulk_in_bytes: 10,
            bulk_out_bytes: 3,
            unlinks_seen: 0,
            unsupported: 1,
        }
    );
    let mut at = 0;
    let mut statuses = Vec::new();
    while let Some((env, n)) = Envelope::parse(&answered[at..]).unwrap() {
        let f = UsbipFrame::parse(env.payload).unwrap();
        statuses.push(RetSubmit::parse(f.raw).unwrap().status);
        at += n;
    }
    assert_eq!(at, answered.len());
    assert_eq!(statuses, [0, 0, -95, -19]);
}

#[test]
fn pump_errors() {
    let dev = FakeDevice::mass_storage(1, 2);
    let mut out = Vec::new();
    let mut stats = PumpStats::default();
    let mut step = |raw: &[u8]| handle_urb_packet(&mut out, 1, &dev, raw, &mut stats);
    assert_eq!(step(&[0; 47]), Err(PumpError::Short(47)));
    let mut unknown = [0u8; 48];
    unknown[0] = 0xDE;
    assert_eq!(step(&unknown), Err(PumpError::UnknownOp([0xDE, 0, 0, 0])));
    let cut = submit(URB_DIR_OUT, 2, 3, [0; 8]).encode();
    assert_eq!(step(&cut), Err(PumpError::Truncated { got: 0, want: 3 }));
    let mut ret = [0u8; 48];
    ret[3] = 4;
    assert_eq!(step(&ret), Err(PumpError::UnexpectedReturn(UrbOp::RetUnlink)));
    let huge = submit(URB_DIR_IN, 1, 0x10_0000, [0; 8]).encode();
    assert_eq!(
        step(&huge),
        Err(PumpError::Reply(EnvelopeError::TooLarge(0x10_0000 + 52)))
    );
    // What was cut off was seen; what cannot be sent back was counted.
    let counted = PumpStats {
        submits_seen: 2,
        submits_ok: 1,
        bulk_in_bytes: 0x10_0000,
        ..PumpStats::default()
    };
    assert_eq!(stats, counted);
    assert!(out.is_empty());

    let full = PumpStats { submits_seen: u32::MAX, unlinks_seen: u32::MAX, ..stats };
    let mut s = full;
    let small = submit(URB_DIR_IN, 1, 1, [0; 8]).encode();
    assert_eq!(
        handle_urb_packet(&mut out, 1, &dev, &small, &mut s),
        Err(PumpError::CounterOverflow)
    );
    let unlink =
        CmdUnlink { seqnum: 1, devid: 0, direction: 0, ep: 0, unlink_seqnum: 0 }.encode();
    assert_eq!(
        handle_urb_packet(&mut out, 1, &dev, &unlink, &mut s),
        Err(PumpError::CounterOverflow)
    );
    assert_eq!(
        handle_urb_packet(&mut out, 1, &dev, &cut, &mut s),
        Err(PumpError::CounterOverflow)
    );
    assert_eq!(s, full);

    let mut s = PumpStats::default();
    let mut framed = vec![0, 0, 0, 1];
    framed.extend_from_slice(&cut);
    assert_eq!(
        pump_envelope(&mut out, 1, &dev, Channel::Usbip, &framed, &mut s),
        Err(PumpError::Truncated { got: 0, want: 3 })
    );
    assert_eq!(s, PumpStats { submits_seen: 1, ..PumpStats::default() });
    assert_eq!(
        pump_envelope(&mut out, 1, &dev, Channel::Usbip, &[0, 0], &mut s),
        Err(PumpError::Frame(UsbipError::Short(2)))
    );
    assert_eq!(
        pump_envelope(&mut out, 1, &dev, Channel::Usbip, &[0, 0, 0, 2], &mut s),
        Err(PumpError::WrongImport { found: 2, session: 1 })
    );
    assert_eq!(pump_envelope(&mut out, 1, &dev, Channel::Hid, &[0], &mut s), Ok(()));
}

#[test]
fn pump_error_messages() {
    let text = |e: PumpError| e.message();
    assert_eq!(
        text(PumpError::Frame(UsbipError::Short(2))),
        "parsing UsbipFrame: frame too short for import_id (2 < 4)"
    );
    assert_eq!(
        text(PumpError::WrongImport { found: 2, session: 16 }),
        "frame import_id 0x2 != session import_id 0x10"
    );
    assert_eq!(text(PumpError::Short(3)), "URB packet too short: 3 < 48");
    assert_eq!(
        text(PumpError::UnknownOp([0xDE, 0xAD, 1, 0])),
        "unknown URB op: [de, ad, 01, 00]"
    );
    assert_eq!(
        text(PumpError::Truncated { got: 1, want: 2 }),
        "CMD_SUBMIT OUT truncated: got 1 bytes after header, need 2"
    );
    assert_eq!(
        text(PumpError::UnexpectedReturn(UrbOp::RetSubmit)),
        "unexpected inbound RET op RetSubmit"
    );
    assert_eq!(
        text(PumpError::Reply(EnvelopeError::TooLarge(9))),
        "encoding envelope: payload too large: 9 > 1048576"
    );
    assert_eq!(text(PumpError::CounterOverflow), "pump counter overflow");
}

#[test]
fn default_script_is_exact() {
    let s = script_default(2, 0);
    let labels: Vec<&str> = s.iter().map(|u| u.label.as_str()).collect();
    assert_eq!(
        labels,
        [
            "GET_DESCRIPTOR(Device,18)",
            "GET_DESCRIPTOR(Config,9)",
            "GET_DESCRIPTOR(Config,32)",
            "SET_CONFIGURATION(1)",
            "bulk-IN-64",
            "bulk-OUT-64",
            "bulk-IN-32",
            "extra-bulk-IN-100",
            "extra-bulk-IN-101",
        ]
    );
    let seqnums: Vec<u32> = s.iter().map(|u| u.seqnum).collect();
    assert_eq!(seqnums, [1, 2, 3, 4, 5, 6, 7, 100, 101]);
    assert_eq!(s[2].setup, [0x80, 6, 0, 2, 0, 0, 32, 0]);
    assert_eq!(s[3].setup, [0, 9, 1, 0, 0, 0, 0, 0]);
    assert_eq!(s[5].out_body, (0..64u8).collect::<Vec<u8>>());
    assert_eq!((s[5].ep, s[5].direction, s[5].expected_actual_length), (2, URB_DIR_OUT, 64));
    assert_eq!((s[8].ep, s[8].direction, s[8].transfer_buffer_length), (1, URB_DIR_IN, 64));
}

/// Runs a script against the pump, one exchange at a time.
fn drive(
    import_id: u32,
    script: &[ScriptedUrb],
    dev: &FakeDevice,
    log: &mut String,
) -> Result<(DriverStats, PumpStats), DriverError> {
    let mut driver = Driver::new(import_id);
    let mut pumped = PumpStats::default();
    while driver.phase != Phase::Done {
        let mut request = Vec::new();
        driver.issue(script, &mut request)?;
        let (env, _) = Envelope::parse(&request).unwrap().unwrap();
        let mut reply = Vec::new();
        pump_envelope(&mut reply, import_id, dev, env.channel, env.payload, &mut pumped).unwrap();
        let (env, _) = Envelope::parse(&reply).unwrap().unwrap();
        driver.accept(script, env.channel, env.payload, log)?;
    }
    Ok((driver.stats, pumped))
}

#[test]
fn default_session_succeeds() {
    let dev = FakeDevice::mass_storage(0x046d, 0xc52b);
    let mut log = String::new();
    let (driver, pump) = drive(7, &script_default(3, 0), &dev, &mut log).unwrap();
    assert_eq!(
        driver,
        DriverStats {
            urbs_issued: 10,
            urbs_ok: 10,
            unlinks_issued: 1,
            unlinks_ok: 1,
            bytes_returned: 155 + 3 * 64,
        }
    );
    assert_eq!(
        pump,
        PumpStats {
            submits_seen: 10,
            submits_ok: 10,
            control_in_bytes: 59,
            bulk_in_bytes: 96 + 3 * 64,
            bulk_out_bytes: 64,
            unlinks_seen: 1,
            unsupported: 0,
        }
    );
    let lines: Vec<&str> = log.lines().collect();
    assert_eq!(
        lines[0],
        "sim-urb GET_DESCRIPTOR(Device,18) seq=1 ep=0 dir=1 status=0 actual_length=18 body_bytes=18"
    );
    assert_eq!(
        lines[5],
        "sim-urb bulk-OUT-64 seq=6 ep=2 dir=0 status=0 actual_length=64 body_bytes=0"
    );
    assert_eq!(lines[10], "sim-unlink seq=9001 status=0 target_seq=5");
    assert_eq!(
        lines[11],
        "sim-summary urbs_issued=10 urbs_ok=10 unlinks_issued=1 unlinks_ok=1 bytes_returned=347"
    );
    assert_eq!(lines.len(), 12);
}

/// Whatever the script, a run that is done has returned what its reading URBs
/// are expected to return.
#[test]
fn any_script_returns_its_in_bytes() {
    let dev = FakeDevice::mass_storage(1, 2);
    let all = script_default(4, 0);
    let picked = vec![all[9].clone(), all[5].clone(), all[0].clone(), all[6].clone()];
    for script in [&picked[..], &picked[1..2], &[]] {
        let expected: u64 = script
            .iter()
            .filter(|u| u.direction == URB_DIR_IN)
            .map(|u| u.expected_actual_length as u64)
            .sum();
        let (stats, _) = drive(3, script, &dev, &mut String::new()).unwrap();
        assert_eq!(stats.bytes_returned, expected);
        assert_eq!(stats.urbs_ok as usize, script.len());
    }
}

fn answer(import_id: u32, ret: RetSubmit, body: &[u8]) -> Vec<u8> {
    let mut raw = ret.encode().to_vec();
    raw.extend(body);
    UsbipFrame::new(import_id, &raw).encode()
}

fn ret(status: i32, actual_length: u32) -> RetSubmit {
    RetSubmit {
        seqnum: 1,
        devid: 0,
        direction: 1,
        ep: 0,
        status,
        actual_length,
        start_frame: 0,
        number_of_packets: 0,
        error_count: 0,
    }
}

fn awaiting(script: &[ScriptedUrb]) -> Driver {
    let mut d = Driver::new(7);
    d.issue(script, &mut Vec::new()).unwrap();
    d
}

#[test]
fn driver_errors() {
    let script = script_default(0, 0);
    let mut log = String::new();
    let mut d = awaiting(&script);
    assert_eq!(d.phase, Phase::AwaitSubmit(0));
    let mut take = |channel: Channel, payload: &[u8]| d.accept(&script, channel, payload, &mut log);
    assert_eq!(
        take(Channel::Control, b""),
        Err(DriverError::WrongChannel(Channel::Control))
    );
    assert_eq!(take(Channel::Usbip, &[1]), Err(DriverError::Frame(UsbipError::Short(1))));
    assert_eq!(
        take(Channel::Usbip, &answer(8, ret(0, 18), &[0; 18])),
        Err(DriverError::WrongImport { found: 8, session: 7 })
    );
    assert_eq!(take(Channel::Usbip, &[0, 0, 0, 7, 0, 0, 0, 9]), Err(DriverError::UnknownOp));
    assert_eq!(
        take(Channel::Usbip, &[0, 0, 0, 7, 0, 0, 0, 4]),
        Err(DriverError::UnexpectedOp(UrbOp::RetUnlink))
    );
    assert_eq!(take(Channel::Usbip, &[0, 0, 0, 7, 0, 0, 0, 3]), Err(DriverError::Short(4)));
    assert_eq!(
        take(Channel::Usbip, &answer(7, ret(-110, 18), &[])),
        Err(DriverError::Mismatch { status: -110, actual_length: 18 })
    );
    assert_eq!(
        take(Channel::Usbip, &answer(7, ret(0, 17), &[0; 17])),
        Err(DriverError::Mismatch { status: 0, actual_length: 17 })
    );
    assert_eq!(
        take(Channel::Usbip, &answer(7, ret(0, 18), &[0; 5])),
        Err(DriverError::BodyLength { body: 5, actual_length: 18 })
    );
    assert_eq!(take(Channel::Usbip, &answer(7, ret(0, 18), &[0; 18])), Ok(()));
    assert_eq!(d.phase, Phase::Ready(1));
    // Only well-formed answers left a line.
    assert_eq!(log.lines().count(), 4);
    assert!(log.starts_with("sim-urb GET_DESCRIPTOR(Device,18) seq=1 ep=0 dir=1 status=-110 "));

    let mut d = awaiting(&[]);
    assert_eq!(d.phase, Phase::AwaitUnlink);
    let refused = RetUnlink { seqnum: 9001, devid: 0, direction: 0, ep: 0, status: -104 };
    let payload = UsbipFrame::new(7, &refused.encode()).encode();
    assert_eq!(
        d.accept(&[], Channel::Usbip, &payload, &mut log),
        Err(DriverError::UnlinkStatus(-104))
    );

    let mut large = script_default(0, 0);
    large[0].out_body = vec![0; 0x10_0000];
    assert_eq!(
        Driver::new(7).issue(&large, &mut Vec::new()),
        Err(DriverError::Request(EnvelopeError::TooLarge(0x10_0000 + 52)))
    );
}

#[test]
fn driver_requests_are_exact() {
    let script = script_default(0, 0);
    let mut d = Driver::new(7);
    d.phase = Phase::Ready(5);
    d.stats.urbs_issued = 5;
    d.stats.urbs_ok = 5;
    d.stats.bytes_returned = 123;
    let mut request = Vec::new();
    d.issue(&script, &mut request).unwrap();
    let (env, n) = Envelope::parse(&request).unwrap().unwrap();
    assert_eq!(n, request.len());
    assert_eq!(env.channel, Channel::Usbip);
    let f = UsbipFrame::parse(env.payload).unwrap();
    assert_eq!(f.import_id, 7);
    let cmd = CmdSubmit::parse(f.raw).unwrap();
    assert_eq!((cmd.seqnum, cmd.devid, cmd.ep, cmd.direction), (6, 0x0001_0002, 2, URB_DIR_OUT));
    assert_eq!(f.raw[48..], (0..64u8).collect::<Vec<u8>>());
}
