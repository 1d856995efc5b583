//! Linux `vhci-hcd` host-side logic for general USB passthrough.
//!
//! A connected socket is handed to the kernel through sysfs:
//!
//! ```text
//! echo "<port> <socket_fd> <devid> <speed>" > attach
//! echo "<port>" > detach
//! ```
//!
//! Where the kernel module is missing, `SimulatedAttach` stands in for it and
//! keeps a transcript of what it would have done.

use vstd::prelude::*;

use crate::protocol::usbip::{AttachModel, UsbipAttachInfo};
use crate::scan::{char_lists, lines, number, parse_number, split_lines, split_words, words};
use crate::text::{
    chars_of, dec, hex, pad_front, push_dec, push_hex, push_signed, push_str, signed_dec,
};

verus! {

/// The two little-endian bytes of `v`.
pub open spec fn le16(v: u16) -> Seq<u8> {
    seq![(v % 0x100) as u8, (v / 0x100) as u8]
}

/// The bytes of `synth_device_descriptor`: USB 2.0, one configuration, 64-byte
/// packets on endpoint 0.
pub open spec fn device_descriptor_bytes(vendor: u16, product: u16, class: u8) -> Seq<u8> {
    seq![0x12u8, 0x01, 0x00, 0x02, class, 0, 0, 64] + le16(vendor) + le16(product) + seq![
        0x00u8,
        0x01,
        0,
        0,
        0,
        1,
    ]
}

/// A plausible 18-byte `usb_device_descriptor` from a few fields. Layout is
/// little-endian as USB 2.0 section 9.6.1 has it.
pub fn synth_device_descriptor(vendor: u16, product: u16, class: u8) -> (d: [u8; 18])
    ensures
        d@ == device_descriptor_bytes(vendor, product, class),
{
    let d: [u8; 18] = [
        0x12,
        0x01,
        0x00,
        0x02,
        class,
        0,
        0,
        64,
        (vendor % 0x100) as u8,
        (vendor / 0x100) as u8,
        (product % 0x100) as u8,
        (product / 0x100) as u8,
        0x00,
        0x01,
        0,
        0,
        0,
        1,
    ];
    assert(d@ =~= device_descriptor_bytes(vendor, product, class));
    d
}

/// Root of the virtual host controller in sysfs.
pub const VHCI_ROOT: &'static str = "/sys/devices/platform/vhci_hcd.0";

pub const ATTACH_PATH: &'static str = "/sys/devices/platform/vhci_hcd.0/attach";

pub const DETACH_PATH: &'static str = "/sys/devices/platform/vhci_hcd.0/detach";

pub const STATUS_PATH: &'static str = "/sys/devices/platform/vhci_hcd.0/status";

/// The state of a port that nothing is attached to.
pub const VDEV_ST_NULL: u64 = 4;

/// The port of a row of the status file, if it is free: the second column is
/// the port, the third its state, and a port in state 4 is free.
///
/// ```text
/// hub port sta spd dev      sockfd local_busid
/// hs  0000 004 000 00000000 000000 0-0
/// hs  0001 006 002 00010001 000003 1-2
/// ```
pub open spec fn free_port(row: Seq<char>) -> Option<nat> {
    let cols = words(row);
    if cols.len() < 3 {
        None
    } else {
        match (number(cols[1], 10, 0xFF), number(cols[2], 10, 0xFFFF_FFFF)) {
            (Some(port), Some(sta)) => if sta == VDEV_ST_NULL {
                Some(port)
            } else {
                None
            },
            _ => None,
        }
    }
}

fn free_port_of(row: &[char]) -> (r: Option<u8>)
    ensures
        match r {
            Some(p) => free_port(row@) == Some(p as nat),
            None => free_port(row@) is None,
        },
{
    let cols = split_words(row);
    assert(char_lists(cols@) == words(row@));
    assert(char_lists(cols@).len() == cols@.len());
    if cols.len() < 3 {
        return None;
    }
    assert(words(row@)[1] == cols@[1]@);
    assert(words(row@)[2] == cols@[2]@);
    match (
        parse_number(cols[1].as_slice(), 10, 0xFF),
        parse_number(cols[2].as_slice(), 10, 0xFFFF_FFFF),
    ) {
        (Some(port), Some(sta)) => if sta == VDEV_ST_NULL {
            Some(port as u8)
        } else {
            None
        },
        _ => None,
    }
}

/// Finds the lowest-numbered free port in the text of the status file, whose
/// first line is a heading.
pub fn find_free_port(status: &str) -> (r: Option<u8>)
    ensures
        match r {
            Some(p) => {
                &&& exists|i: int|
                    1 <= i < lines(status@).len() && #[trigger] free_port(lines(status@)[i])
                        == Some(p as nat)
                &&& forall|i: int|
                    1 <= i < lines(status@).len() && (#[trigger] free_port(
                        lines(status@)[i],
                    )) is Some ==> p <= free_port(lines(status@)[i])->Some_0
            },
            None => forall|i: int|
                1 <= i < lines(status@).len() ==> (#[trigger] free_port(lines(status@)[i])) is None,
        },
{
    let text = chars_of(status);
    let rows = split_lines(text.as_slice());
    let ghost all = lines(status@);
    assert(char_lists(rows@) == all);
    assert(all.len() == rows@.len());
    let mut best: Option<u8> = None;
    let mut i: usize = 1;
    while i < rows.len()
        invariant
            1 <= i,
            i <= rows@.len() || rows@.len() == 0,
            all == lines(status@),
            char_lists(rows@) == all,
            all.len() == rows@.len(),
            match best {
                Some(p) => {
                    &&& exists|j: int|
                        1 <= j < i && j < all.len() && #[trigger] free_port(all[j]) == Some(
                            p as nat,
                        )
                    &&& forall|j: int|
                        1 <= j < i && (#[trigger] free_port(all[j])) is Some ==> p <= free_port(
                            all[j],
                        )->Some_0
                },
                None => forall|j: int| 1 <= j < i ==> (#[trigger] free_port(all[j])) is None,
            },
        decreases rows@.len() - i,
    {
        assert(all[i as int] == rows@[i as int]@);
        if let Some(p) = free_port_of(rows[i].as_slice()) {
            assert(free_port(all[i as int]) == Some(p as nat));
            match best {
                None => {
                    best = Some(p);
                },
                Some(b) => {
                    if p < b {
                        best = Some(p);
                    }
                },
            }
        }
        i += 1;
    }
    best
}

/// The line that hands a socket to the kernel.
pub open spec fn attach_text(port: u8, fd: i32, devid: u32, speed: u8) -> Seq<char> {
    dec(port as nat) + " "@ + signed_dec(fd as int) + " "@ + dec(devid as nat) + " "@ + dec(
        speed as nat,
    )
}

/// The line that hands a socket to the kernel.
pub fn attach_line(port: u8, fd: i32, info: &UsbipAttachInfo) -> (s: String)
    ensures
        s@ == attach_text(port, fd, info.devid, info.speed),
        s@ == dec(port as nat) + " "@ + signed_dec(fd as int) + " "@ + dec(info.devid as nat) + " "@
            + dec(info.speed as nat),
{
    let mut s = String::new();
    push_dec(&mut s, port as u64);
    push_str(&mut s, " ");
    push_signed(&mut s, fd);
    push_str(&mut s, " ");
    push_dec(&mut s, info.devid as u64);
    push_str(&mut s, " ");
    push_dec(&mut s, info.speed as u64);
    assert(s@ =~= attach_text(port, fd, info.devid, info.speed));
    s
}

/// The line that takes a port back from the kernel.
pub fn detach_line(port: u8) -> (s: String)
    ensures
        s@ == dec(port as nat),
{
    let mut s = String::new();
    push_dec(&mut s, port as u64);
    assert(s@ =~= dec(port as nat));
    s
}

/// Whether the virtual host controller can be used: its directory and its
/// status file have to exist.
pub fn vhci_available(root_exists: bool, status_exists: bool) -> (r: bool)
    ensures
        r == (root_exists && status_exists),
{
    root_exists && status_exists
}

/// Userspace stand-in for an attach: what a real one would log.
#[derive(Debug)]
pub struct SimulatedAttach {
    pub port: u8,
    pub busid: String,
}

/// The transcript of an attach.
pub open spec fn sim_attach_text(info: AttachModel) -> Seq<char> {
    "sim-attach port="@ + dec((info.import_id % 0x100) as nat) + " busid="@ + info.busid
        + " import_id="@ + dec(info.import_id as nat) + " devid=0x"@ + hex(info.devid as nat)
        + " speed="@ + dec(info.speed as nat) + " vid="@ + pad_front(
        hex(info.vendor_id as nat),
        4,
        '0',
    ) + " pid="@ + pad_front(hex(info.product_id as nat), 4, '0') + "\n"@
        + match info.descriptor_hex {
        Some(d) => "sim-descriptor "@ + info.busid + " bytes="@ + dec(
            (vstd::utf8::encode_utf8(d).len() / 2) as nat,
        ) + "\n"@,
        None => Seq::empty(),
    }
}

/// The transcript of a relayed packet.
pub open spec fn sim_urb_text(port: u8, import_id: u32, seq: u32, bytes: nat) -> Seq<char> {
    "sim-urb port="@ + dec(port as nat) + " import_id="@ + dec(import_id as nat) + " seq="@ + dec(
        seq as nat,
    ) + " bytes="@ + dec(bytes) + "\n"@
}

/// The transcript of a detach.
pub open spec fn sim_detach_text(port: u8, busid: Seq<char>) -> Seq<char> {
    "sim-detach port="@ + dec(port as nat) + " busid="@ + busid + "\n"@
}

impl SimulatedAttach {
    /// Pretends to attach a device: the port is the low byte of its import id,
    /// so that different attaches of a run have different ones.
    #[verifier::spinoff_prover]
    #[verifier::rlimit(40)]
    pub fn create(info: &UsbipAttachInfo, log: &mut String) -> (a: SimulatedAttach)
        ensures
            a.port == info.import_id % 0x100,
            a.busid@ == info.busid@,
            final(log)@ == old(log)@ + sim_attach_text(info@),
    {
        let port: u8 = (info.import_id % 0x100) as u8;
        push_str(log, "sim-attach port=");
        push_dec(log, port as u64);
        push_str(log, " busid=");
        push_str(log, info.busid.as_str());
        push_str(log, " import_id=");
        push_dec(log, info.import_id as u64);
        push_str(log, " devid=0x");
        push_hex(log, info.devid as u64, 0);
        assert(pad_front(hex(info.devid as nat), 0, '0') =~= hex(info.devid as nat));
        push_str(log, " speed=");
        push_dec(log, info.speed as u64);
        push_str(log, " vid=");
        push_hex(log, info.vendor_id as u64, 4);
        push_str(log, " pid=");
        push_hex(log, info.product_id as u64, 4);
        push_str(log, "\n");
        match &info.descriptor_hex {
            Some(d) => {
                push_str(log, "sim-descriptor ");
                push_str(log, info.busid.as_str());
                push_str(log, " bytes=");
                push_dec(log, (d.as_str().as_bytes().len() / 2) as u64);
                push_str(log, "\n");
            },
            None => {},
        }
        assert(log@ =~= old(log)@ + sim_attach_text(info@));
        SimulatedAttach { port, busid: info.busid.clone() }
    }

    /// Records a relayed packet.
    pub fn record_urb(&self, import_id: u32, seq: u32, bytes: usize, log: &mut String)
        ensures
            final(log)@ == old(log)@ + sim_urb_text(self.port, import_id, seq, bytes as nat),
            final(log)@ == old(log)@ + ("sim-urb port="@ + dec(self.port as nat) + " import_id="@
                + dec(import_id as nat) + " seq="@ + dec(seq as nat) + " bytes="@ + dec(
                bytes as nat,
            ) + "\n"@),
    {
        push_str(log, "sim-urb port=");
        push_dec(log, self.port as u64);
        push_str(log, " import_id=");
        push_dec(log, import_id as u64);
        push_str(log, " seq=");
        push_dec(log, seq as u64);
        push_str(log, " bytes=");
        push_dec(log, bytes as u64);
        push_str(log, "\n");
        assert(log@ =~= old(log)@ + sim_urb_text(self.port, import_id, seq, bytes as nat));
    }

    /// Records the detach at the end of the session.
    pub fn detach(&self, log: &mut String)
        ensures
            final(log)@ == old(log)@ + sim_detach_text(self.port, self.busid@),
            final(log)@ == old(log)@ + ("sim-detach port="@ + dec(self.port as nat) + " busid="@
                + self.busid@ + "\n"@),
    {
        push_str(log, "sim-detach port=");
        push_dec(log, self.port as u64);
        push_str(log, " busid=");
        push_str(log, self.busid.as_str());
        push_str(log, "\n");
        assert(log@ =~= old(log)@ + sim_detach_text(self.port, self.busid@));
    }

    /// The pretended port.
    pub fn port(&self) -> (p: u8)
        ensures
            p == self.port,
    {
        self.port
    }

    /// The busid of the attached device.
    pub fn busid(&self) -> (s: &str)
        ensures
            s@ == self.busid@,
    {
        self.busid.as_str()
    }
}

/// The layout of the synthesised device descriptor (USB 2.0 section 9.6.1): its
/// own length and type, USB 2.0, the class, 64-byte packets on endpoint 0,
/// vendor and product with their low bytes first, device release 1.0, no
/// strings and one configuration.
pub proof fn lemma_device_descriptor_layout(vendor: u16, product: u16, class: u8)
    ensures
        ({
            let d = device_descriptor_bytes(vendor, product, class);
            &&& d.len() == 18
            &&& d[0] == d.len()
            &&& d[1] == 1
            &&& d[2] + 0x100 * d[3] == 0x0200
            &&& d[4] == class
            &&& d[5] == 0 && d[6] == 0
            &&& d[7] == 64
            &&& d[8] + 0x100 * d[9] == vendor
            &&& d[10] + 0x100 * d[11] == product
            &&& d[12] + 0x100 * d[13] == 0x0100
            &&& d[14] == 0 && d[15] == 0 && d[16] == 0
            &&& d[17] == 1
        }),
{
}

/// A row of the status file names a free port just where its second column is
/// that port and its third column reads as 4.
pub proof fn lemma_free_port_columns(row: Seq<char>, p: nat)
    ensures
        free_port(row) == Some(p) <==> words(row).len() >= 3 && number(words(row)[1], 10, 255)
            == Some(p) && number(words(row)[2], 10, 0xFFFF_FFFF) == Some(4nat),
{
}

/// The transcript of an attach, part by part: the port is the low byte of the
/// import id, the ids have four digits each, and a descriptor is told by its
/// length in bytes, two characters being one.
pub proof fn lemma_sim_attach_parts(info: AttachModel)
    ensures
        sim_attach_text(info) == "sim-attach port="@ + dec((info.import_id % 256) as nat)
            + " busid="@ + info.busid + " import_id="@ + dec(info.import_id as nat) + " devid=0x"@
            + hex(info.devid as nat) + " speed="@ + dec(info.speed as nat) + " vid="@ + pad_front(
            hex(info.vendor_id as nat),
            4,
            '0',
        ) + " pid="@ + pad_front(hex(info.product_id as nat), 4, '0') + "\n"@
            + match info.descriptor_hex {
            Some(d) => "sim-descriptor "@ + info.busid + " bytes="@ + dec(
                (vstd::utf8::encode_utf8(d).len() / 2) as nat,
            ) + "\n"@,
            None => Seq::empty(),
        },
{
}

/// The files of the virtual host controller stand in its directory.
pub proof fn lemma_vhci_paths()
    ensures
        ATTACH_PATH@ == VHCI_ROOT@ + "/attach"@,
        DETACH_PATH@ == VHCI_ROOT@ + "/detach"@,
        STATUS_PATH@ == VHCI_ROOT@ + "/status"@,
{
    reveal_strlit("/sys/devices/platform/vhci_hcd.0");
    reveal_strlit("/sys/devices/platform/vhci_hcd.0/attach");
    reveal_strlit("/sys/devices/platform/vhci_hcd.0/detach");
    reveal_strlit("/sys/devices/platform/vhci_hcd.0/status");
    reveal_strlit("/attach");
    reveal_strlit("/detach");
    reveal_strlit("/status");
    assert(ATTACH_PATH@ =~= VHCI_ROOT@ + "/attach"@);
    assert(DETACH_PATH@ =~= VHCI_ROOT@ + "/detach"@);
    assert(STATUS_PATH@ =~= VHCI_ROOT@ + "/status"@);
}

} // verus!
