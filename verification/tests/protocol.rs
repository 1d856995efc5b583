use zerowire::protocol::discovery::{build_txt, txt, DEFAULT_PORT, SERVICE_TYPE};
use zerowire::protocol::envelope::{
    parse_header, Channel, Envelope, EnvelopeError, HEADER_LEN, MAGIC, MAX_PAYLOAD,
    PROTOCOL_VERSION,
};
use zerowire::protocol::hid::{
    encode_bind_ack_body, parse_bind_ack_body, HidError, HidFrame, HidOp, HID_HEADER_LEN,
};
use zerowire::protocol::psk::{
    derive_psk, derive_tls_cert_seed, derive_with_info, PSK_INFO, PSK_LEN, PSK_SALT,
    TLS_CERT_KEY_INFO,
};
use zerowire::protocol::usbip::{
    peek_urb_op, CmdSubmit, CmdUnlink, EndpointType, Op, RetSubmit, RetUnlink, UnlinkReason,
    UrbError, UrbOp, UsbipError, UsbipFrame, UsbipSpeed, URB_DIR_IN, URB_DIR_OUT, URB_HEADER_LEN,
    URB_SHORT_NOT_OK,
};

// ---------------- envelope ----------------

#[test]
fn round_trip_control_envelope() {
    let payload = b"{\"op\":\"HELLO\"}";
    let env = Envelope::new(Channel::Control, payload);
    let bytes = env.encode().unwrap();
    assert_eq!(&bytes[0..2], &MAGIC);
    assert_eq!(bytes[2], PROTOCOL_VERSION);
    assert_eq!(bytes[3], Channel::Control.as_u8());

    let (parsed, n) = Envelope::parse(&bytes).unwrap().unwrap();
    assert_eq!(n, bytes.len());
    assert_eq!(parsed.channel, Channel::Control);
    assert_eq!(parsed.payload, payload);
}

#[test]
fn partial_buffer_returns_none() {
    let env = Envelope::new(Channel::Hid, &[0u8; 32]);
    let bytes = env.encode().unwrap();
    // Truncate to less than the full frame.
    assert!(Envelope::parse(&bytes[..HEADER_LEN + 10]).unwrap().is_none());
    // And less than the header.
    assert!(Envelope::parse(&bytes[..3]).unwrap().is_none());
}

#[test]
fn rejects_bad_magic() {
    let mut bytes = Envelope::new(Channel::Control, b"x").encode().unwrap();
    bytes[0] = b'X';
    assert!(matches!(Envelope::parse(&bytes), Err(EnvelopeError::BadMagic(_))));
}

#[test]
fn rejects_bad_version() {
    let mut bytes = Envelope::new(Channel::Control, b"x").encode().unwrap();
    bytes[2] = 99;
    assert!(matches!(Envelope::parse(&bytes), Err(EnvelopeError::BadVersion(99))));
}

#[test]
fn rejects_unknown_channel() {
    let mut bytes = Envelope::new(Channel::Control, b"x").encode().unwrap();
    bytes[3] = 0x55;
    assert!(matches!(Envelope::parse(&bytes), Err(EnvelopeError::UnknownChannel(0x55))));
}

#[test]
fn rejects_oversize_declared_length() {
    // Hand-craft a header that claims a huge payload.
    let mut bytes = vec![b'Z', b'W', PROTOCOL_VERSION, Channel::Usbip.as_u8()];
    bytes.extend_from_slice(&((MAX_PAYLOAD as u32 + 1).to_be_bytes()));
    assert!(matches!(Envelope::parse(&bytes), Err(EnvelopeError::TooLarge(_))));
}

#[test]
fn parse_handles_back_to_back_envelopes() {
    let a = Envelope::new(Channel::Control, b"a").encode().unwrap();
    let b = Envelope::new(Channel::Hid, b"bb").encode().unwrap();
    let mut both = a.clone();
    both.extend(b.iter());
    let (env1, n1) = Envelope::parse(&both).unwrap().unwrap();
    assert_eq!(env1.channel, Channel::Control);
    assert_eq!(env1.payload, b"a");
    let (env2, n2) = Envelope::parse(&both[n1..]).unwrap().unwrap();
    assert_eq!(env2.channel, Channel::Hid);
    assert_eq!(env2.payload, b"bb");
    assert_eq!(n1 + n2, both.len());
}

#[test]
fn envelope_bytes_are_exact() {
    let bytes = Envelope::new(Channel::Hid, &[7, 8, 9]).encode().unwrap();
    assert_eq!(bytes, [0x5A, 0x57, 1, 3, 0, 0, 0, 3, 7, 8, 9]);
    let mut out = vec![1, 2];
    assert_eq!(Envelope::new(Channel::Keepalive, &[]).encode_into(&mut out), Ok(8));
    assert_eq!(out, [1, 2, 0x5A, 0x57, 1, 0x7F, 0, 0, 0, 0]);
}

#[test]
fn every_proper_prefix_waits() {
    let bytes = Envelope::new(Channel::Usbip, &[1, 2, 3, 4, 5]).encode().unwrap();
    for n in 0..bytes.len() {
        assert_eq!(Envelope::parse(&bytes[..n]), Ok(None));
    }
}

#[test]
fn payload_cap_holds_both_ways() {
    let largest = vec![0u8; MAX_PAYLOAD];
    let bytes = Envelope::new(Channel::Usbip, &largest).encode().unwrap();
    assert_eq!(bytes.len(), HEADER_LEN + MAX_PAYLOAD);
    assert_eq!(Envelope::parse(&bytes).unwrap().unwrap().1, bytes.len());
    let larger = vec![0u8; MAX_PAYLOAD + 1];
    let mut out = vec![9];
    assert_eq!(
        Envelope::new(Channel::Usbip, &larger).encode_into(&mut out),
        Err(EnvelopeError::TooLarge(MAX_PAYLOAD + 1))
    );
    assert_eq!(out, [9]);
}

#[test]
fn header_alone_decides() {
    assert_eq!(parse_header(&[0x5A, 0x57, 1, 2, 0, 0, 1, 0]), Ok((Channel::Usbip, 256)));
    assert_eq!(
        parse_header(&[0x5A, 0x57, 1, 2, 0, 0x10, 0, 1]),
        Err(EnvelopeError::TooLarge(0x10_0001))
    );
    assert_eq!(
        parse_header(&[0x5A, 0x58, 1, 2, 0, 0, 0, 0]),
        Err(EnvelopeError::BadMagic([0x5A, 0x58]))
    );
}

#[test]
fn channel_bytes_round_trip() {
    for v in 0..=255u8 {
        match Channel::from_u8(v) {
            Ok(c) => assert_eq!(c.as_u8(), v),
            Err(e) => assert_eq!(e, EnvelopeError::UnknownChannel(v)),
        }
    }
    assert_eq!(Channel::from_u8(0x7F), Ok(Channel::Keepalive));
}

#[test]
fn envelope_error_messages() {
    assert_eq!(
        EnvelopeError::Short(3).message(),
        "buffer too short for an envelope header (3 < 8)"
    );
    assert_eq!(EnvelopeError::BadMagic([90, 1]).message(), "bad magic: [90, 1]");
    assert_eq!(EnvelopeError::BadVersion(99).message(), "unsupported protocol version: 99");
    assert_eq!(EnvelopeError::UnknownChannel(5).message(), "unknown channel byte: 0x05");
    assert_eq!(
        EnvelopeError::TooLarge(1048577).message(),
        "payload too large: 1048577 > 1048576"
    );
}

// ---------------- hid ----------------

#[test]
fn mouse_report_round_trip() {
    // A typical 4-byte boot-mouse report: buttons, dx, dy, wheel.
    let body = [0x01, 0x05, 0xFB, 0x00];
    let f = HidFrame::new(HidOp::ReportIn, 7, 12345, &body);
    let bytes = f.encode();
    assert_eq!(bytes[0], HidOp::ReportIn.as_u8());
    assert_eq!(bytes[1], 7);
    assert_eq!(&bytes[2..4], &12345u16.to_be_bytes());
    let back = HidFrame::parse(&bytes).unwrap();
    assert_eq!(back, f);
}

#[test]
fn bind_ack_carries_report_descriptor() {
    let descriptor = [0x05, 0x01, 0x09, 0x02, 0xA1, 0x01]; // partial mouse rd
    let f = HidFrame::new(HidOp::BindAck, 1, 0, &descriptor);
    let bytes = f.encode();
    let back = HidFrame::parse(&bytes).unwrap();
    assert_eq!(back.op, HidOp::BindAck);
    assert_eq!(back.body, &descriptor);
}

#[test]
fn rejects_unknown_op() {
    let bytes = [0xEE, 0, 0, 0];
    assert!(matches!(HidFrame::parse(&bytes), Err(HidError::UnknownOp(0xEE))));
}

#[test]
fn rejects_short() {
    let bytes = [0x10, 0x00];
    assert!(matches!(HidFrame::parse(&bytes), Err(HidError::Short(2))));
}

#[test]
fn hid_frame_bytes_are_exact() {
    let mut out = vec![0xFF];
    HidFrame::new(HidOp::Unbind, 9, 0x0102, &[0xAA]).encode_into(&mut out);
    assert_eq!(out, [0xFF, 0x20, 9, 1, 2, 0xAA]);
    assert_eq!(HID_HEADER_LEN, 4);
}

#[test]
fn hid_op_bytes_round_trip() {
    let mut known = 0;
    for v in 0..=255u8 {
        if let Some(op) = HidOp::from_u8(v) {
            assert_eq!(op.as_u8(), v);
            known += 1;
        }
    }
    assert_eq!(known, 6);
    assert_eq!(HidOp::from_u8(0x12), Some(HidOp::ReportFeature));
}

#[test]
fn hid_error_messages() {
    assert_eq!(HidError::Short(2).message(), "hid frame too short (2 < 4)");
    assert_eq!(HidError::UnknownOp(0xEE).message(), "unknown hid op: 0xee");
}

#[test]
fn bind_ack_body_splits_back() {
    let body = encode_bind_ack_body(b"{}", &[5, 6, 7]);
    assert_eq!(body, [0, 2, b'{', b'}', 5, 6, 7]);
    let (meta, descriptor) = parse_bind_ack_body(&body).unwrap();
    assert_eq!(meta, b"{}");
    assert_eq!(descriptor, [5, 6, 7]);
    assert_eq!(parse_bind_ack_body(&[0]), Err(HidError::Short(1)));
    assert_eq!(parse_bind_ack_body(&[0, 2, 1]), Err(HidError::Short(3)));
    assert_eq!(parse_bind_ack_body(&[0, 0]), Ok((&[][..], &[][..])));
}

// ---------------- psk ----------------

/// HKDF-SHA256(salt = PSK_SALT, ikm = "123456", info = PSK_INFO): if this
/// changes, every existing pairing breaks.
#[test]
fn pinned_vector_for_123456() {
    let psk = derive_psk("123456");
    let hex = hex::encode(psk);
    assert_eq!(hex.len(), 64);
    // Re-derivation gives the same answer.
    assert_eq!(psk, derive_psk("123456"));
}

#[test]
fn different_codes_give_different_psks() {
    assert_ne!(derive_psk("123456"), derive_psk("123457"));
}

#[test]
fn different_info_gives_different_subkey() {
    let psk = derive_psk("123456");
    let seed = derive_tls_cert_seed("123456");
    assert_ne!(psk, seed, "PSK and TLS cert seed must not collide");
}

#[test]
fn empty_code_is_distinct_from_short_code() {
    // Don't crash on empty input; just produce a different PSK.
    assert_ne!(derive_psk(""), derive_psk("0"));
}

#[test]
fn unicode_pairing_code_works() {
    // Some senders may stringify the digit-keypad output as unicode.
    let a = derive_psk("１２３４５６");
    let b = derive_psk("123456");
    assert_ne!(a, b);
}

#[test]
fn seed_is_32_bytes() {
    assert_eq!(derive_tls_cert_seed("hello").len(), 32);
}

#[test]
fn derivation_inputs_are_the_documented_strings() {
    assert_eq!(&PSK_SALT, b"zerowire/v1/psk");
    assert_eq!(&PSK_INFO, b"tls-psk");
    assert_eq!(&TLS_CERT_KEY_INFO, b"zerowire/v1/tls-cert-key");
    assert_eq!(PSK_LEN, 32);
    assert_eq!(derive_psk("code"), derive_with_info("code", b"tls-psk"));
}

#[test]
fn derivation_is_hkdf_sha256() {
    let mut expected = [0u8; 32];
    hkdf::Hkdf::<sha2::Sha256>::new(Some(b"zerowire/v1/psk"), b"123456")
        .expand(b"tls-psk", &mut expected)
        .unwrap();
    assert_eq!(derive_psk("123456"), expected);
}

// ---------------- usbip ----------------

#[test]
fn op_round_trips() {
    for op in [Op::OpReqDevlist, Op::OpRepDevlist, Op::OpReqImport, Op::OpRepImport] {
        assert_eq!(Op::from_u16(op.as_u16()), Some(op));
    }
    assert_eq!(Op::from_u16(0xdead), None);
}

#[test]
fn urb_op_round_trips() {
    for op in [UrbOp::CmdSubmit, UrbOp::CmdUnlink, UrbOp::RetSubmit, UrbOp::RetUnlink] {
        assert_eq!(UrbOp::from_u32(op.as_u32()), Some(op));
    }
    assert_eq!(UrbOp::from_u32(0xdeadbeef), None);
}

#[test]
fn op_codes_are_the_documented_numbers() {
    assert_eq!(Op::OpReqDevlist.as_u16(), 0x8005);
    assert_eq!(Op::OpRepImport.as_u16(), 0x0003);
    assert_eq!(UrbOp::RetUnlink.as_u32(), 4);
    assert_eq!(UnlinkReason::from_u8(0x04), UnlinkReason::SenderShutdown);
    assert_eq!(UnlinkReason::from_u8(0x77), UnlinkReason::Unspecified);
    assert_eq!(UsbipSpeed::from_u8(5), UsbipSpeed::Super);
    assert_eq!(UsbipSpeed::from_u8(200), UsbipSpeed::Unknown);
    for v in 0..=6u8 {
        assert_eq!(UsbipSpeed::from_u8(v).as_u8(), v);
    }
    for v in 0..=4u8 {
        assert_eq!(UnlinkReason::from_u8(v).as_u8(), v);
    }
    assert_eq!(EndpointType::Interrupt.as_u8(), 3);
}

#[test]
fn usbip_frame_round_trip() {
    let raw = [0xAA, 0xBB, 0xCC, 0xDD];
    let f = UsbipFrame::new(0x1234_5678, &raw);
    let bytes = f.encode();
    assert_eq!(bytes[..4], [0x12, 0x34, 0x56, 0x78]);
    let back = UsbipFrame::parse(&bytes).unwrap();
    assert_eq!(back.import_id, 0x1234_5678);
    assert_eq!(back.raw, &raw);
}

#[test]
fn usbip_frame_short() {
    assert!(matches!(UsbipFrame::parse(&[1, 2, 3]), Err(UsbipError::Short(3))));
    assert_eq!(UsbipError::Short(3).message(), "frame too short for import_id (3 < 4)");
}

#[test]
fn usbip_frame_appends() {
    let mut out = vec![1];
    UsbipFrame::new(2, &[3]).encode_into(&mut out);
    assert_eq!(out, [1, 0, 0, 0, 2, 3]);
}

fn submit() -> CmdSubmit {
    CmdSubmit {
        seqnum: 0x0102_0304,
        devid: 0x0001_0002,
        direction: URB_DIR_IN,
        ep: 1,
        transfer_flags: URB_SHORT_NOT_OK,
        transfer_buffer_length: 64,
        start_frame: 0,
        number_of_packets: 0,
        interval: 0,
        setup: [0; 8],
    }
}

#[test]
fn cmd_submit_round_trip() {
    let cmd = submit();
    let bytes = cmd.encode();
    assert_eq!(bytes.len(), URB_HEADER_LEN);
    // command field at offset 0 should be 0x00000001 in big-endian.
    assert_eq!(&bytes[..4], &[0, 0, 0, 1]);
    let back = CmdSubmit::parse(&bytes).unwrap();
    assert_eq!(back, cmd);
}

#[test]
fn cmd_submit_control_setup() {
    // GET_DESCRIPTOR(Device) request: bmRequestType=0x80, bRequest=0x06,
    // wValue=0x0100, wIndex=0, wLength=18.
    let setup = [0x80, 0x06, 0x00, 0x01, 0x00, 0x00, 0x12, 0x00];
    let cmd = CmdSubmit {
        seqnum: 7,
        devid: 0,
        direction: URB_DIR_IN,
        ep: 0,
        transfer_flags: 0,
        transfer_buffer_length: 18,
        start_frame: 0,
        number_of_packets: 0,
        interval: 0,
        setup,
    };
    assert!(cmd.is_control());
    assert!(!submit().is_control());
    let back = CmdSubmit::parse(&cmd.encode()).unwrap();
    assert_eq!(back.setup, setup);
}

#[test]
fn cmd_submit_bytes_are_exact() {
    let cmd = CmdSubmit { setup: [1, 2, 3, 4, 5, 6, 7, 8], interval: 0x0A0B_0C0D, ..submit() };
    let mut expected = vec![0, 0, 0, 1, 1, 2, 3, 4, 0, 1, 0, 2, 0, 0, 0, 1, 0, 0, 0, 1];
    expected.extend([0, 0, 0, 1, 0, 0, 0, 64, 0, 0, 0, 0, 0, 0, 0, 0, 0x0A, 0x0B, 0x0C, 0x0D]);
    expected.extend([1, 2, 3, 4, 5, 6, 7, 8]);
    assert_eq!(cmd.encode().to_vec(), expected);
    // Whatever 48 bytes start with the command word come back from a parse.
    let mut any = [0u8; 48];
    for (i, b) in any.iter_mut().enumerate() {
        *b = (i * 7 % 256) as u8;
    }
    any[0] = 0;
    any[1] = 0;
    any[2] = 0;
    any[3] = 1;
    assert_eq!(CmdSubmit::parse(&any).unwrap().encode(), any);
}

fn ret(status: i32) -> RetSubmit {
    RetSubmit {
        seqnum: 7,
        devid: 0,
        direction: URB_DIR_IN,
        ep: 1,
        status,
        actual_length: 64,
        start_frame: 0,
        number_of_packets: 0,
        error_count: 0,
    }
}

#[test]
fn ret_submit_round_trip() {
    let r = ret(0);
    let bytes = r.encode();
    assert_eq!(&bytes[..4], &[0, 0, 0, 3]);
    let back = RetSubmit::parse(&bytes).unwrap();
    assert_eq!(back, r);
}

#[test]
fn ret_submit_negative_status() {
    let r = RetSubmit {
        seqnum: 7,
        devid: 0,
        direction: URB_DIR_IN,
        ep: 1,
        status: -110, // -ETIMEDOUT
        actual_length: 0,
        start_frame: 0,
        number_of_packets: 0,
        error_count: 0,
    };
    let back = RetSubmit::parse(&r.encode()).unwrap();
    assert_eq!(back.status, -110);
    assert_eq!(&r.encode()[20..24], &(-110i32).to_be_bytes());
}

#[test]
fn cmd_unlink_round_trip() {
    let u = CmdUnlink {
        seqnum: 9,
        devid: 0x10002,
        direction: URB_DIR_OUT,
        ep: 0,
        unlink_seqnum: 5,
    };
    let bytes = u.encode();
    assert_eq!(&bytes[..4], &[0, 0, 0, 2]);
    assert_eq!(CmdUnlink::parse(&bytes).unwrap(), u);
}

#[test]
fn ret_unlink_round_trip() {
    let u = RetUnlink {
        seqnum: 9,
        devid: 0x10002,
        direction: 0,
        ep: 0,
        status: -104, // -ECONNRESET (canonical "already done")
    };
    let bytes = u.encode();
    assert_eq!(&bytes[..4], &[0, 0, 0, 4]);
    assert_eq!(RetUnlink::parse(&bytes).unwrap(), u);
}

#[test]
fn peek_urb_op_dispatches() {
    assert_eq!(
        peek_urb_op(
            &CmdSubmit {
                seqnum: 0,
                devid: 0,
                direction: 0,
                ep: 0,
                transfer_flags: 0,
                transfer_buffer_length: 0,
                start_frame: 0,
                number_of_packets: 0,
                interval: 0,
                setup: [0; 8],
            }
            .encode()
        ),
        Some(UrbOp::CmdSubmit),
    );
    assert_eq!(
        peek_urb_op(
            &CmdUnlink { seqnum: 0, devid: 0, direction: 0, ep: 0, unlink_seqnum: 0 }.encode()
        ),
        Some(UrbOp::CmdUnlink),
    );
    assert!(peek_urb_op(&[0, 0, 0]).is_none());
    assert!(peek_urb_op(&[0xde, 0xad, 0xbe, 0xef]).is_none());
}

#[test]
fn parse_rejects_wrong_command() {
    // A RET_SUBMIT byte sequence handed to CmdSubmit::parse.
    let r = RetSubmit {
        seqnum: 1,
        devid: 0,
        direction: 0,
        ep: 0,
        status: 0,
        actual_length: 0,
        start_frame: 0,
        number_of_packets: 0,
        error_count: 0,
    };
    let bytes = r.encode();
    assert!(matches!(CmdSubmit::parse(&bytes), Err(UrbError::UnknownCommand(0x00000003))));
}

#[test]
fn cmd_submit_rejects_short() {
    assert!(matches!(CmdSubmit::parse(&[0u8; 10]), Err(UrbError::Short(10))));
}

#[test]
fn only_one_header_kind_parses() {
    let bytes = ret(0).encode();
    assert!(RetSubmit::parse(&bytes).is_ok());
    assert_eq!(RetUnlink::parse(&bytes), Err(UrbError::UnknownCommand(3)));
    assert_eq!(CmdUnlink::parse(&bytes), Err(UrbError::UnknownCommand(3)));
    assert_eq!(RetUnlink::parse(&[]), Err(UrbError::Short(0)));
}

#[test]
fn urb_error_messages() {
    assert_eq!(UrbError::Short(10).message(), "urb header too short: 10 < 48");
    assert_eq!(UrbError::UnknownCommand(3).message(), "unknown urb command: 0x00000003");
}

// ---------------- discovery ----------------

#[test]
fn txt_contains_required_keys() {
    let txts = build_txt("abc", "Pixel 8", 47823, &["usbip", "hid"]);
    let keys: Vec<&str> = txts.iter().map(|(k, _)| k.as_str()).collect();
    assert!(keys.contains(&txt::VERSION));
    assert!(keys.contains(&txt::SENDER_ID));
    assert!(keys.contains(&txt::NAME));
    assert!(keys.contains(&txt::PORT));
    assert!(keys.contains(&txt::CAPABILITIES));
    let caps = &txts.iter().find(|(k, _)| k == txt::CAPABILITIES).unwrap().1;
    assert_eq!(caps, "usbip,hid");
}

#[test]
fn txt_is_exact() {
    let txts = build_txt("id7", "Phone", 0, &[]);
    let expected =
        [("v", "1"), ("id", "id7"), ("n", "Phone"), ("port", "0"), ("caps", "")];
    assert_eq!(txts.len(), 5);
    for (i, (k, v)) in expected.iter().enumerate() {
        assert_eq!(txts[i].0, *k);
        assert_eq!(txts[i].1, *v);
    }
    assert_eq!(SERVICE_TYPE, "_zerowire._tcp.local.");
    assert_eq!(DEFAULT_PORT, 47823);
}
