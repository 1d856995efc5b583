use zerowire::gui::daemon::{
    daemon_args, describe_status, finalize_to_idle, update_from_line, DaemonHandle, DaemonStatus,
};
use zerowire::gui::pairing::{
    code_from, ensure_default_port_present, random_code, urlencode, PairingError, PairingPayload,
};
use zerowire::gui::qr::{paint, qr_image};

#[test]
fn generate_round_trip() {
    let p = PairingPayload::generate(47823).unwrap();
    let enc = p.encode();
    assert!(enc.starts_with("zerowire://pair?host="));
    assert!(enc.contains("&port=47823"));
    assert!(enc.contains("&code="));
    assert!(!p.host.is_empty());
    assert_eq!(ensure_default_port_present(&enc), Ok(()));
    // The code stands in the payload as it is.
    assert!(enc.ends_with(&p.code));
}

#[test]
fn code_uses_safe_alphabet() {
    for _ in 0..20 {
        let code = random_code();
        assert_eq!(code.len(), 12);
        assert!(code.chars().all(|c| c.is_ascii_alphanumeric()));
        // Confusables intentionally absent.
        for c in ['I', 'O', '0', '1'] {
            assert!(!code.contains(c), "unsafe char {c} in {code}");
        }
    }
}

#[test]
fn codes_differ() {
    let codes: Vec<String> = (0..8).map(|_| random_code()).collect();
    assert!(codes.iter().any(|c| *c != codes[0]));
}

#[test]
fn codes_are_spelled_by_indices() {
    assert_eq!(code_from(&[0, 8, 13, 23, 24, 31]), "AJPZ29");
    assert_eq!(code_from(&[]), "");
}

#[test]
fn payload_is_exact() {
    let p = PairingPayload {
        host: "fe80::1%eth0".to_string(),
        port: 80,
        code: "a b&c=é".to_string(),
    };
    assert_eq!(
        p.encode(),
        "zerowire://pair?host=fe80%3A%3A1%25eth0&port=80&code=a%20b%26c%3D%C3%A9"
    );
    assert_eq!(p.local_endpoint(), "fe80::1%eth0:80");
    let q = PairingPayload::for_host(None, 1, "X".to_string());
    assert_eq!(q.encode(), "zerowire://pair?host=127.0.0.1&port=1&code=X");
    let r = PairingPayload::for_host(Some("h".to_string()), 1, "X".to_string());
    assert_eq!(r.host, "h");
}

#[test]
fn url_encoding_is_exact() {
    assert_eq!(urlencode("AZaz09-_.~"), "AZaz09-_.~");
    assert_eq!(urlencode("/?#[]@!"), "%2F%3F%23%5B%5D%40%21");
    assert_eq!(urlencode("\u{0}\u{7f}"), "%00%7F");
}

#[test]
fn port_is_required() {
    assert_eq!(
        ensure_default_port_present("zerowire://pair?host=h&prt=1"),
        Err(PairingError::MissingPort)
    );
    assert_eq!(ensure_default_port_present("&port="), Ok(()));
}

fn after(status: DaemonStatus, line: &str) -> DaemonStatus {
    let mut s = status;
    update_from_line(&mut s, line);
    s
}

#[test]
fn lines_move_the_status() {
    let connected = DaemonStatus::Connected { sender: "Pixel".to_string() };
    assert_eq!(
        after(DaemonStatus::Waiting, "INFO HELLO_ACK id=1 name=Pixel 8 x"),
        connected
    );
    assert_eq!(after(connected.clone(), "usbip session ended (3)"), DaemonStatus::Waiting);
    assert_eq!(
        after(DaemonStatus::Waiting, "ATTACH_DENIED ERROR"),
        DaemonStatus::Error("Receiver denied attach (busid mismatch?)".to_string())
    );
    assert_eq!(
        after(DaemonStatus::Waiting, "ERROR boom"),
        DaemonStatus::Error("ERROR boom".to_string())
    );
    assert_eq!(after(connected.clone(), "nothing of note"), connected);
    // A name before HELLO_ACK does not count, nor does an empty one.
    assert_eq!(after(DaemonStatus::Waiting, "name=A HELLO_ACK"), DaemonStatus::Waiting);
    assert_eq!(
        after(DaemonStatus::Idle, "HELLO_ACK name=   session ended"),
        DaemonStatus::Connected { sender: "session".to_string() }
    );
    assert_eq!(after(DaemonStatus::Waiting, "HELLO_ACK name= ERROR".trim_end_matches(" ERROR")),
        DaemonStatus::Waiting);
}

#[test]
fn the_end_of_output_is_idle_or_an_error() {
    for (status, end) in [
        (DaemonStatus::Idle, DaemonStatus::Idle),
        (DaemonStatus::Waiting, DaemonStatus::Idle),
        (DaemonStatus::Connected { sender: "s".to_string() }, DaemonStatus::Idle),
        (DaemonStatus::Error("e".to_string()), DaemonStatus::Error("e".to_string())),
    ] {
        let mut s = status;
        finalize_to_idle(&mut s);
        assert_eq!(s, end);
        finalize_to_idle(&mut s);
        assert_eq!(s, end);
    }
    assert_eq!(DaemonStatus::default(), DaemonStatus::Idle);
}

#[test]
fn daemon_is_started_and_stopped() {
    let p = PairingPayload::for_host(None, 1, "CODE".to_string());
    let (mut h, args) = DaemonHandle::spawn(&p, None);
    assert_eq!(args, ["receive", "--mode", "usbip", "--psk", "CODE"]);
    assert_eq!(h.status(), DaemonStatus::Waiting);
    assert!(h.devices().is_empty());
    h.stop();
    assert_eq!(h.status(), DaemonStatus::Idle);
    assert_eq!(
        daemon_args("C", Some("h:1")),
        ["receive", "--mode", "usbip", "--psk", "C", "--target", "h:1"]
    );
}

#[test]
fn statuses_are_described() {
    assert_eq!(describe_status(&DaemonStatus::Idle, "e").0, "Idle");
    let (title, body) = describe_status(&DaemonStatus::Waiting, "1.2.3.4:5");
    assert_eq!(title, "Waiting for phone…");
    assert_eq!(
        body,
        "Scan the QR with the zerowire Android app, or connect manually to 1.2.3.4:5."
    );
    let connected = DaemonStatus::Connected { sender: "P".to_string() };
    assert_eq!(
        describe_status(&connected, "e"),
        ("Connected".to_string(), "Phone: P".to_string())
    );
    let failed = DaemonStatus::Error("x".to_string());
    assert_eq!(describe_status(&failed, "e"), ("Error".to_string(), "x".to_string()));
}

#[test]
fn qr_is_painted_module_by_module() {
    let image = qr_image("zerowire://pair?host=127.0.0.1&port=1&code=X").unwrap();
    let code = qrcode::QrCode::new("zerowire://pair?host=127.0.0.1&port=1&code=X").unwrap();
    let width = code.width();
    assert_eq!(image.dim, 6 * width);
    assert_eq!(image.pixels.len(), image.dim * image.dim * 4);
    let colors = code.to_colors();
    for y in 0..image.dim {
        for x in 0..image.dim {
            let dark = colors[(y / 6) * width + x / 6] == qrcode::Color::Dark;
            let shade = if dark { 0 } else { 255 };
            let p = (y * image.dim + x) * 4;
            assert_eq!(image.pixels[p..p + 4], [shade, shade, shade, 255]);
        }
    }
    assert!(qr_image(&"x".repeat(5000)).is_err());
}

#[test]
fn paint_scales_each_module() {
    let pixels = paint(2, &[true, false, false, true]);
    assert_eq!(pixels.len(), 12 * 12 * 4);
    let shade = |x: usize, y: usize| pixels[(y * 12 + x) * 4];
    assert_eq!((shade(0, 0), shade(5, 5), shade(6, 5), shade(5, 6), shade(11, 11)), (0, 0, 255, 255, 0));
}
