//! What the command-line tools print.

use vstd::prelude::*;

use crate::protocol::control::{devices_model, DeviceModel, DeviceSummary};
use crate::text::{
    hex, hex_bytes, hex_encode, pad_back, pad_front, push_hex, push_left, push_repeated, push_str,
    repeated,
};

verus! {

/// The first eight bytes of a fingerprint in hexadecimal.
pub fn short_fp(fp: &[u8; 32]) -> (s: String)
    ensures
        s@ == hex_bytes(fp@.take(8)),
{
    let head = vstd::slice::slice_subrange(fp.as_slice(), 0, 8);
    assert(head@ =~= fp@.take(8));
    hex_encode(head)
}

/// The row of a device: busid, ids, whether it is HID, and its name.
pub open spec fn device_row(d: DeviceModel) -> Seq<char> {
    pad_back(d.busid, 10, ' ') + "  "@ + pad_front(hex(d.vendor_id as nat), 4, '0') + ":"@
        + pad_front(hex(d.product_id as nat), 4, '0') + "   "@ + pad_back(
        if d.is_hid {
            "yes"@
        } else {
            "no"@
        },
        4,
        ' ',
    ) + "  "@ + (match d.product {
        Some(p) => p,
        None => "<unnamed>"@,
    }) + "\n"@
}

/// The rows of devices, one under the other.
pub open spec fn device_rows(devs: Seq<DeviceModel>) -> Seq<char>
    decreases devs.len(),
{
    if devs.len() == 0 {
        Seq::empty()
    } else {
        device_rows(devs.drop_last()) + device_row(devs.last())
    }
}

/// The inventory of a sender: a heading, a rule and a row for each device, or a
/// note that there is none.
pub open spec fn device_table(devs: Seq<DeviceModel>) -> Seq<char> {
    if devs.len() == 0 {
        "(no devices exposed by sender)\n"@
    } else {
        pad_back("busid"@, 10, ' ') + "  "@ + pad_back("vid:pid"@, 10, ' ') + "  "@ + pad_back(
            "hid"@,
            4,
            ' ',
        ) + "  name\n"@ + repeated('-', 10) + "  "@ + repeated('-', 10) + "  "@ + repeated('-', 4)
            + "  "@ + repeated('-', 30) + "\n"@ + device_rows(devs)
    }
}

fn push_device_row(out: &mut String, d: &DeviceSummary)
    ensures
        final(out)@ == old(out)@ + device_row(d@),
{
    push_left(out, d.busid.as_str(), 10);
    push_str(out, "  ");
    push_hex(out, d.vendor_id as u64, 4);
    push_str(out, ":");
    push_hex(out, d.product_id as u64, 4);
    push_str(out, "   ");
    if d.is_hid {
        push_left(out, "yes", 4);
    } else {
        push_left(out, "no", 4);
    }
    push_str(out, "  ");
    match &d.product {
        Some(p) => push_str(out, p.as_str()),
        None => push_str(out, "<unnamed>"),
    }
    push_str(out, "\n");
    assert(out@ =~= old(out)@ + device_row(d@));
}

/// The text that lists a sender's devices.
pub fn print_devices(devices: &[DeviceSummary]) -> (s: String)
    ensures
        s@ == device_table(devices_model(devices@)),
{
    let mut s = String::new();
    let ghost all = devices_model(devices@);
    if devices.len() == 0 {
        push_str(&mut s, "(no devices exposed by sender)\n");
        assert(s@ =~= device_table(all));
        return s;
    }
    push_left(&mut s, "busid", 10);
    push_str(&mut s, "  ");
    push_left(&mut s, "vid:pid", 10);
    push_str(&mut s, "  ");
    push_left(&mut s, "hid", 4);
    push_str(&mut s, "  name\n");
    push_repeated(&mut s, '-', 10);
    push_str(&mut s, "  ");
    push_repeated(&mut s, '-', 10);
    push_str(&mut s, "  ");
    push_repeated(&mut s, '-', 4);
    push_str(&mut s, "  ");
    push_repeated(&mut s, '-', 30);
    push_str(&mut s, "\n");
    let ghost head = s@;
    assert(head + device_rows(all) =~= device_table(all));
    let mut i: usize = 0;
    assert(s@ =~= head + device_rows(all.take(0)));
    while i < devices.len()
        invariant
            i <= devices@.len(),
            all == devices_model(devices@),
            s@ == head + device_rows(all.take(i as int)),
        decreases devices@.len() - i,
    {
        push_device_row(&mut s, &devices[i]);
        assert(all.take(i + 1).drop_last() =~= all.take(i as int));
        assert(all.take(i + 1).last() == devices@[i as int]@);
        i += 1;
        assert(s@ =~= head + device_rows(all.take(i as int)));
    }
    assert(all.take(i as int) =~= all);
    s
}

/// The inventory has a row for every device, in order; a row shows the busid, the
/// ids with four digits each, whether the device is HID and its name.
pub proof fn lemma_inventory(devs: Seq<DeviceModel>, d: DeviceModel)
    ensures
        device_table(Seq::<DeviceModel>::empty()) == "(no devices exposed by sender)\n"@,
        device_table(seq![d]) == pad_back("busid"@, 10, ' ') + "  "@ + pad_back("vid:pid"@, 10, ' ')
            + "  "@ + pad_back("hid"@, 4, ' ') + "  name\n"@ + repeated('-', 10) + "  "@ + repeated(
            '-',
            10,
        ) + "  "@ + repeated('-', 4) + "  "@ + repeated('-', 30) + "\n"@ + device_row(d),
        devs.len() > 0 ==> device_table(devs.push(d)) == device_table(devs) + device_row(d),
        device_row(d) == pad_back(d.busid, 10, ' ') + "  "@ + pad_front(
            hex(d.vendor_id as nat),
            4,
            '0',
        ) + ":"@ + pad_front(hex(d.product_id as nat), 4, '0') + "   "@ + pad_back(
            if d.is_hid {
                "yes"@
            } else {
                "no"@
            },
            4,
            ' ',
        ) + "  "@ + (match d.product {
            Some(p) => p,
            None => "<unnamed>"@,
        }) + "\n"@,
{
    assert(seq![d].drop_last() =~= Seq::<DeviceModel>::empty());
    assert(device_rows(seq![d].drop_last()) =~= Seq::<char>::empty());
    assert(device_rows(seq![d]) =~= device_row(d));
    if devs.len() > 0 {
        assert(devs.push(d).drop_last() =~= devs);
        assert(device_table(devs.push(d)) =~= device_table(devs) + device_row(d));
    }
}

} // verus!
