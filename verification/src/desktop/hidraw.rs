//! What the Linux sender makes of the `/dev/hidraw` devices it finds in sysfs.

use vstd::prelude::*;

use crate::desktop::discovery::{txt_get, txt_value};
use crate::protocol::control::{DeviceModel, DeviceSummary};
use crate::protocol::discovery::pairs_model;
use crate::scan::{
    char_lists, find_char, index_of, lemma_index_of, lemma_number_round_trip,
    lemma_text_order_total, lemma_text_order_transitive, lines, number, parse_number, split_lines,
    text_before, text_less, trim, trimmed,
};
use crate::text::{chars_of, digit_char, hex, opt_text, same_text, string_of};

verus! {

/// The `KEY=value` pair of a line, split at the first equals sign.
pub open spec fn line_pair(line: Seq<char>) -> Option<(Seq<char>, Seq<char>)> {
    let n = index_of(line, '=');
    if n < line.len() {
        Some((line.take(n as int), line.skip(n as int + 1)))
    } else {
        None
    }
}

/// The pairs of the lines that are pairs.
pub open spec fn line_pairs(rows: Seq<Seq<char>>) -> Seq<(Seq<char>, Seq<char>)>
    decreases rows.len(),
{
    if rows.len() == 0 {
        Seq::empty()
    } else {
        line_pairs(rows.drop_last()) + match line_pair(rows.last()) {
            Some(p) => seq![p],
            None => Seq::empty(),
        }
    }
}

/// Reads the text of a `uevent` file: its `KEY=value` lines. Of several lines
/// with one key the last counts.
pub fn parse_uevent(text: &str) -> (v: Vec<(String, String)>)
    ensures
        pairs_model(v@) == line_pairs(lines(text@)),
{
    let c = chars_of(text);
    let rows = split_lines(c.as_slice());
    let ghost all = lines(text@);
    assert(char_lists(rows@) == all);
    assert(all.len() == rows@.len());
    let mut v: Vec<(String, String)> = Vec::new();
    let mut i: usize = 0;
    assert(pairs_model(v@) =~= line_pairs(all.take(0)));
    while i < rows.len()
        invariant
            i <= rows@.len(),
            char_lists(rows@) == all,
            all.len() == rows@.len(),
            pairs_model(v@) == line_pairs(all.take(i as int)),
        decreases rows@.len() - i,
    {
        let row = rows[i].as_slice();
        assert(all[i as int] == row@);
        assert(all.take(i + 1).drop_last() =~= all.take(i as int));
        assert(all.take(i + 1).last() == row@);
        assert(row@.skip(0) =~= row@);
        let ghost before = v@;
        let n: usize = find_char(row, 0, '=');
        proof {
            lemma_index_of(row@, '=');
        }
        if n < row.len() {
            let key = string_of(vstd::slice::slice_subrange(row, 0, n));
            let value = string_of(vstd::slice::slice_subrange(row, n + 1, row.len()));
            assert(key@ =~= row@.take(n as int));
            assert(value@ =~= row@.skip(n + 1));
            v.push((key, value));
            assert(pairs_model(v@) =~= pairs_model(before).push((key@, value@)));
        }
        i += 1;
        assert(pairs_model(v@) =~= line_pairs(all.take(i as int)));
    }
    assert(all.take(i as int) =~= all);
    v
}

/// Whether a `uevent` text is that of a USB device.
pub open spec fn says_usb_device(text: Seq<char>) -> bool {
    txt_get(line_pairs(lines(text)), "DEVTYPE"@) == Some("usb_device"@)
}

/// Whether a `uevent` text is that of a USB device.
pub fn is_usb_device(text: &str) -> (r: bool)
    ensures
        r == says_usb_device(text@),
{
    let pairs = parse_uevent(text);
    match txt_value(pairs.as_slice(), "DEVTYPE") {
        Some(t) => same_text(t, "usb_device"),
        None => false,
    }
}

/// How many directories are looked at on the way up.
pub const MAX_ANCESTORS: usize = 16;

/// Whether the directory at index `i` on the way up is that of a USB device.
/// Directories without a readable `uevent` are none.
pub open spec fn usb_device_at(uevents: Seq<Option<String>>, i: int) -> bool {
    uevents[i] is Some && says_usb_device(uevents[i]->Some_0@)
}

/// Finds the USB device among a directory and its ancestors, given the text of
/// the `uevent` file of each where it can be read: the index of the first of
/// the first sixteen.
pub fn find_usb_device_ancestor(uevents: &[Option<String>]) -> (r: Option<usize>)
    ensures
        match r {
            Some(i) => i < uevents@.len() && i < MAX_ANCESTORS && usb_device_at(uevents@, i as int)
                && i < 16 && forall|j: int| 0 <= j < i ==> !#[trigger] usb_device_at(uevents@, j),
            None => forall|j: int|
                0 <= j < uevents@.len() && j < MAX_ANCESTORS ==> !#[trigger] usb_device_at(
                    uevents@,
                    j,
                ),
        },
        (exists|j: int| 0 <= j < uevents@.len() && j < 16 && #[trigger] usb_device_at(uevents@, j))
            ==> r is Some,
{
    let mut i: usize = 0;
    while i < uevents.len() && i < MAX_ANCESTORS
        invariant
            i <= uevents@.len(),
            i <= MAX_ANCESTORS,
            forall|j: int| 0 <= j < i ==> !#[trigger] usb_device_at(uevents@, j),
        decreases uevents@.len() - i,
    {
        if let Some(text) = &uevents[i] {
            if is_usb_device(text.as_str()) {
                assert(usb_device_at(uevents@, i as int));
                return Some(i);
            }
        }
        i += 1;
    }
    None
}

/// The text of an attribute without white space around it.
pub fn attribute_text(raw: &str) -> (s: String)
    ensures
        s@ == trim(raw@),
{
    let c = chars_of(raw);
    let t = trimmed(c.as_slice());
    string_of(t.as_slice())
}

/// The 16-bit number that an attribute gives in hexadecimal.
pub fn attribute_u16(raw: &str) -> (r: Option<u16>)
    ensures
        match r {
            Some(n) => number(trim(raw@), 16, 0xFFFF) == Some(n as nat),
            None => number(trim(raw@), 16, 0xFFFF) is None,
        },
{
    let c = chars_of(raw);
    let t = trimmed(c.as_slice());
    match parse_number(t.as_slice(), 16, 0xFFFF) {
        Some(n) => Some(n as u16),
        None => None,
    }
}

/// The 8-bit number that an attribute gives in hexadecimal, or 0 where it is
/// missing or no such number.
pub open spec fn byte_or_zero(raw: Option<Seq<char>>) -> u8 {
    match raw {
        Some(s) => match number(trim(s), 16, 0xFF) {
            Some(n) => n as u8,
            None => 0,
        },
        None => 0,
    }
}

fn attribute_u8(raw: &Option<String>) -> (n: u8)
    ensures
        n == byte_or_zero(opt_text(*raw)),
{
    match raw {
        Some(s) => {
            let c = chars_of(s.as_str());
            let t = trimmed(c.as_slice());
            match parse_number(t.as_slice(), 16, 0xFF) {
                Some(n) => n as u8,
                None => 0,
            }
        },
        None => 0,
    }
}

/// Why a text is no `vvvv:pppp` filter.
#[derive(Clone, Copy, Debug, PartialEq, Eq, Structural)]
pub enum VidPidError {
    MissingColon,
    BadVendor,
    BadProduct,
}

/// The parts of a `vvvv:pppp` filter.
pub open spec fn vidpid(s: Seq<char>) -> Result<(u16, u16), VidPidError> {
    let n = index_of(s, ':');
    if n >= s.len() {
        Err(VidPidError::MissingColon)
    } else {
        match number(s.take(n as int), 16, 0xFFFF) {
            None => Err(VidPidError::BadVendor),
            Some(v) => match number(s.skip(n as int + 1), 16, 0xFFFF) {
                None => Err(VidPidError::BadProduct),
                Some(p) => Ok((v as u16, p as u16)),
            },
        }
    }
}

/// Reads a `vvvv:pppp` filter: vendor and product in hexadecimal.
pub fn parse_vidpid(s: &str) -> (r: Result<(u16, u16), VidPidError>)
    ensures
        r == vidpid(s@),
        r == Err::<(u16, u16), VidPidError>(VidPidError::MissingColon) <==> !s@.contains(':'),
{
    let c = chars_of(s);
    assert(c@.skip(0) =~= c@);
    let n: usize = find_char(c.as_slice(), 0, ':');
    proof {
        lemma_index_of(c@, ':');
    }
    if n == c.len() {
        assert(!s@.contains(':')) by {
            if s@.contains(':') {
                let i = choose|i: int| 0 <= i < s@.len() && s@[i] == ':';
                assert(c@[i] == ':');
            }
        }
        return Err(VidPidError::MissingColon);
    }
    assert(s@[n as int] == ':');
    let first = vstd::slice::slice_subrange(c.as_slice(), 0, n);
    let second = vstd::slice::slice_subrange(c.as_slice(), n + 1, c.len());
    assert(first@ =~= s@.take(n as int));
    assert(second@ =~= s@.skip(n + 1));
    let vendor: u16 = match parse_number(first, 16, 0xFFFF) {
        Some(v) => v as u16,
        None => return Err(VidPidError::BadVendor),
    };
    match parse_number(second, 16, 0xFFFF) {
        Some(p) => Ok((vendor, p as u16)),
        None => Err(VidPidError::BadProduct),
    }
}

/// The raw sysfs attributes of a `/dev/hidraw` device.
pub struct HidrawAttributes {
    pub hidraw_path: String,
    /// Last part of the USB device's path in sysfs, if it has one.
    pub device_dir: Option<String>,
    /// Text of the USB device's `uevent` file.
    pub uevent: String,
    pub id_vendor: String,
    pub id_product: String,
    pub manufacturer: Option<String>,
    pub product: Option<String>,
    pub serial: Option<String>,
    pub device_class: Option<String>,
    pub device_subclass: Option<String>,
    pub device_protocol: Option<String>,
    pub interface_class: Option<String>,
    pub interface_protocol: Option<String>,
}

/// A device that the sender exposes.
#[derive(Debug)]
pub struct ExposedHidraw {
    pub summary: DeviceSummary,
    pub hidraw_path: String,
    pub interface_class: u8,
    pub interface_protocol: u8,
}

/// The mathematical content of an `ExposedHidraw`.
pub struct ExposedModel {
    pub summary: DeviceModel,
    pub hidraw_path: Seq<char>,
    pub interface_class: u8,
    pub interface_protocol: u8,
}

impl View for ExposedHidraw {
    type V = ExposedModel;

    open spec fn view(&self) -> ExposedModel {
        ExposedModel {
            summary: self.summary@,
            hidraw_path: self.hidraw_path@,
            interface_class: self.interface_class,
            interface_protocol: self.interface_protocol,
        }
    }
}

/// The contents of a list of exposed devices.
pub open spec fn exposed_models(v: Seq<ExposedHidraw>) -> Seq<ExposedModel> {
    Seq::new(v.len(), |i: int| v[i]@)
}

/// Why a device's attributes make no sense.
#[derive(Clone, Copy, Debug, PartialEq, Eq, Structural)]
pub enum HidrawError {
    BadVendor,
    BadProduct,
    NoBusid,
}

/// A trimmed optional attribute.
pub open spec fn opt_trim(raw: Option<Seq<char>>) -> Option<Seq<char>> {
    match raw {
        Some(s) => Some(trim(s)),
        None => None,
    }
}

fn trim_opt(raw: &Option<String>) -> (r: Option<String>)
    ensures
        opt_text(r) == opt_trim(opt_text(*raw)),
{
    match raw {
        Some(s) => Some(attribute_text(s.as_str())),
        None => None,
    }
}

/// The busid of a device: the name of its directory, else its device name.
pub open spec fn busid_of(a: HidrawAttributes) -> Option<Seq<char>> {
    match a.device_dir {
        Some(d) => Some(d@),
        None => txt_get(line_pairs(lines(a.uevent@)), "DEVNAME"@),
    }
}

/// What a device's attributes come to: nothing where the filter asks for
/// another device.
pub open spec fn exposed(a: HidrawAttributes, filter: Option<(u16, u16)>) -> Result<
    Option<ExposedModel>,
    HidrawError,
> {
    match number(trim(a.id_vendor@), 16, 0xFFFF) {
        None => Err(HidrawError::BadVendor),
        Some(v) => match number(trim(a.id_product@), 16, 0xFFFF) {
            None => Err(HidrawError::BadProduct),
            Some(p) => if filter is Some && (filter->Some_0.0 != v || filter->Some_0.1 != p) {
                Ok(None)
            } else {
                match busid_of(a) {
                    None => Err(HidrawError::NoBusid),
                    Some(busid) => Ok(
                        Some(
                            ExposedModel {
                                summary: DeviceModel {
                                    busid,
                                    vendor_id: v as u16,
                                    product_id: p as u16,
                                    manufacturer: opt_trim(opt_text(a.manufacturer)),
                                    product: opt_trim(opt_text(a.product)),
                                    serial: opt_trim(opt_text(a.serial)),
                                    device_class: byte_or_zero(opt_text(a.device_class)),
                                    device_subclass: byte_or_zero(opt_text(a.device_subclass)),
                                    device_protocol: byte_or_zero(opt_text(a.device_protocol)),
                                    is_hid: byte_or_zero(opt_text(a.interface_class)) == 0x03,
                                },
                                hidraw_path: a.hidraw_path@,
                                interface_class: byte_or_zero(opt_text(a.interface_class)),
                                interface_protocol: byte_or_zero(opt_text(a.interface_protocol)),
                            },
                        ),
                    ),
                }
            },
        },
    }
}

/// Makes an exposed device of its attributes, if the filter lets it through.
pub fn expose(a: &HidrawAttributes, filter: Option<(u16, u16)>) -> (r: Result<
    Option<ExposedHidraw>,
    HidrawError,
>)
    ensures
        match r {
            Ok(Some(e)) => exposed(*a, filter) == Ok::<Option<ExposedModel>, HidrawError>(Some(e@)),
            Ok(None) => exposed(*a, filter) == Ok::<Option<ExposedModel>, HidrawError>(None),
            Err(e) => exposed(*a, filter) == Err::<Option<ExposedModel>, HidrawError>(e),
        },
        r matches Ok(Some(e)) ==> number(trim(a.id_vendor@), 16, 0xFFFF) == Some(
            e.summary.vendor_id as nat,
        ) && number(trim(a.id_product@), 16, 0xFFFF) == Some(e.summary.product_id as nat),
        r matches Ok(Some(e)) ==> (filter matches Some((v, p)) ==> e.summary.vendor_id == v
            && e.summary.product_id == p),
{
    let vendor_id: u16 = match attribute_u16(a.id_vendor.as_str()) {
        Some(v) => v,
        None => return Err(HidrawError::BadVendor),
    };
    let product_id: u16 = match attribute_u16(a.id_product.as_str()) {
        Some(p) => p,
        None => return Err(HidrawError::BadProduct),
    };
    if let Some((v, p)) = filter {
        if vendor_id != v || product_id != p {
            return Ok(None);
        }
    }
    let busid = match &a.device_dir {
        Some(d) => d.clone(),
        None => {
            let pairs = parse_uevent(a.uevent.as_str());
            match txt_value(pairs.as_slice(), "DEVNAME") {
                Some(d) => d.to_owned(),
                None => return Err(HidrawError::NoBusid),
            }
        },
    };
    let interface_class: u8 = attribute_u8(&a.interface_class);
    let interface_protocol: u8 = attribute_u8(&a.interface_protocol);
    let summary = DeviceSummary {
        busid,
        vendor_id,
        product_id,
        manufacturer: trim_opt(&a.manufacturer),
        product: trim_opt(&a.product),
        serial: trim_opt(&a.serial),
        device_class: attribute_u8(&a.device_class),
        device_subclass: attribute_u8(&a.device_subclass),
        device_protocol: attribute_u8(&a.device_protocol),
        is_hid: interface_class == 0x03,
    };
    Ok(
        Some(
            ExposedHidraw {
                summary,
                hidraw_path: a.hidraw_path.clone(),
                interface_class,
                interface_protocol,
            },
        ),
    )
}

/// The paths of the devices.
pub open spec fn paths(found: Seq<HidrawAttributes>) -> Seq<Seq<char>> {
    Seq::new(found.len(), |i: int| found[i].hidraw_path@)
}

/// Whether the device at index `i` stands before that at index `j`: by its
/// path, of equal paths the one that was found first.
pub open spec fn stands_before(paths: Seq<Seq<char>>, i: int, j: int) -> bool {
    text_less(paths[i], paths[j]) || (paths[i] == paths[j] && i < j)
}

/// Whether `order` holds the index of every path, in the order of the paths.
pub open spec fn is_name_order(paths: Seq<Seq<char>>, order: Seq<usize>) -> bool {
    &&& forall|k: int| 0 <= k < order.len() ==> (#[trigger] order[k]) < paths.len()
    &&& forall|i: usize| i < paths.len() ==> #[trigger] order.contains(i)
    &&& forall|k: int, m: int|
        0 <= k < m < order.len() ==> stands_before(
            paths,
            (#[trigger] order[k]) as int,
            (#[trigger] order[m]) as int,
        )
}

/// The indices of the devices in the order of their paths.
pub fn name_order(found: &[HidrawAttributes]) -> (order: Vec<usize>)
    ensures
        is_name_order(paths(found@), order@),
        order@.len() == found@.len(),
        forall|i: usize| i < found@.len() ==> #[trigger] order@.contains(i),
        forall|k: int| 0 <= k < order@.len() ==> (#[trigger] order@[k]) < found@.len(),
        forall|k: int, m: int|
            0 <= k < m < order@.len() ==> !text_less(
                found@[(#[trigger] order@[m]) as int].hidraw_path@,
                found@[(#[trigger] order@[k]) as int].hidraw_path@,
            ),
{
    let mut order: Vec<usize> = Vec::new();
    let ghost all = paths(found@);
    let mut i: usize = 0;
    while i < found.len()
        invariant
            i <= found@.len(),
            all == paths(found@),
            order@.len() == i,
            is_name_order(all.take(i as int), order@),
        decreases found@.len() - i,
    {
        let new = chars_of(found[i].hidraw_path.as_str());
        assert(new@ == all[i as int]);
        let ghost before = order@;
        let mut at: usize = 0;
        while at < order.len()
            invariant_except_break
                forall|k: int|
                    0 <= k < at ==> !text_less(new@, all[(#[trigger] order@[k]) as int]),
            invariant
                at <= order@.len(),
                i < found@.len(),
                all == paths(found@),
                order@ == before,
                forall|k: int| 0 <= k < order@.len() ==> (#[trigger] order@[k]) < i,
            ensures
                forall|k: int|
                    0 <= k < at ==> !text_less(new@, all[(#[trigger] order@[k]) as int]),
                at < order@.len() ==> text_less(new@, all[order@[at as int] as int]),
            decreases order@.len() - at,
        {
            let other = chars_of(found[order[at]].hidraw_path.as_str());
            assert(other@ == all[order@[at as int] as int]);
            if text_before(new.as_slice(), other.as_slice()) {
                break;
            }
            at += 1;
        }
        order.insert(at, i);
        proof {
            lemma_insert_in_order(all, before, i, at as int);
        }
        i += 1;
    }
    assert(all.take(i as int) =~= all);
    assert forall|k: int, m: int| 0 <= k < m < order@.len() implies !text_less(
        found@[(#[trigger] order@[m]) as int].hidraw_path@,
        found@[(#[trigger] order@[k]) as int].hidraw_path@,
    ) by {
        assert(stands_before(all, order@[k] as int, order@[m] as int));
        lemma_text_order_total(all[order@[k] as int], all[order@[m] as int]);
    }
    order
}

/// A device that was found last goes behind those it does not stand before.
proof fn lemma_insert_in_order(all: Seq<Seq<char>>, order: Seq<usize>, new: usize, at: int)
    requires
        new < all.len(),
        is_name_order(all.take(new as int), order),
        0 <= at <= order.len(),
        forall|k: int| 0 <= k < at ==> !text_less(all[new as int], all[(#[trigger] order[k]) as int]),
        at < order.len() ==> text_less(all[new as int], all[order[at] as int]),
    ensures
        is_name_order(all.take(new + 1), order.insert(at, new)),
{
    let old_paths = all.take(new as int);
    let new_paths = all.take(new + 1);
    let grown = order.insert(at, new);
    assert forall|k: int| 0 <= k < grown.len() implies (#[trigger] grown[k]) < new_paths.len() by {
        if k < at {
            assert(grown[k] == order[k]);
        } else if k > at {
            assert(grown[k] == order[k - 1]);
        }
    }
    assert forall|i: usize| i < new_paths.len() implies #[trigger] grown.contains(i) by {
        if i == new {
            assert(grown[at] == new);
        } else {
            assert(order.contains(i));
            let k = choose|k: int| 0 <= k < order.len() && order[k] == i;
            if k < at {
                assert(grown[k] == i);
            } else {
                assert(grown[k + 1] == i);
            }
        }
    }
    assert forall|k: int, m: int| 0 <= k < m < grown.len() implies stands_before(
        new_paths,
        (#[trigger] grown[k]) as int,
        (#[trigger] grown[m]) as int,
    ) by {
        let a = if k < at {
            k
        } else {
            k - 1
        };
        let b = if m < at {
            m
        } else {
            m - 1
        };
        if k == at {
            assert(grown[m] == order[b]);
            if b > at {
                assert(stands_before(old_paths, order[at] as int, order[b] as int));
                if text_less(all[order[at] as int], all[order[b] as int]) {
                    lemma_text_order_transitive(
                        all[new as int],
                        all[order[at] as int],
                        all[order[b] as int],
                    );
                }
            }
        } else if m == at {
            assert(grown[k] == order[k]);
            lemma_text_order_total(all[order[k] as int], all[new as int]);
        } else {
            assert(grown[k] == order[a]);
            assert(grown[m] == order[b]);
            assert(stands_before(old_paths, order[a] as int, order[b] as int));
        }
    }
}

/// Paths have only one order.
pub proof fn lemma_name_order_is_unique(paths: Seq<Seq<char>>, a: Seq<usize>, b: Seq<usize>)
    requires
        is_name_order(paths, a),
        is_name_order(paths, b),
    ensures
        a == b,
{
    lemma_name_order_prefix(paths, a, b, a.len());
    lemma_name_order_prefix(paths, b, a, b.len());
    assert(a =~= b);
}

/// Of two orders of the same paths, one begins as the other does.
proof fn lemma_name_order_prefix(paths: Seq<Seq<char>>, a: Seq<usize>, b: Seq<usize>, n: nat)
    requires
        is_name_order(paths, a),
        is_name_order(paths, b),
        n <= a.len(),
    ensures
        n <= b.len(),
        forall|k: int| 0 <= k < n ==> #[trigger] a[k] == b[k],
    decreases n,
{
    if n > 0 {
        lemma_name_order_prefix(paths, a, b, (n - 1) as nat);
        let k = n - 1;
        assert(a[k] < paths.len());
        assert(b.contains(a[k]));
        let m = choose|m: int| 0 <= m < b.len() && b[m] == a[k];
        if m < k {
            assert(a[m] == b[m]);
            lemma_text_order_total(paths[a[k] as int], paths[a[k] as int]);
            assert(stands_before(paths, a[m] as int, a[k] as int));
        }
        assert(k <= m);
        assert(a.contains(b[k]));
        let l = choose|l: int| 0 <= l < a.len() && a[l] == b[k];
        if l < k {
            assert(a[l] == b[l]);
            lemma_text_order_total(paths[b[k] as int], paths[b[k] as int]);
            assert(stands_before(paths, b[l] as int, b[k] as int));
        }
        if k < m && k < l {
            assert(stands_before(paths, b[k] as int, b[m] as int));
            assert(stands_before(paths, a[k] as int, a[l] as int));
            lemma_text_order_total(paths[a[k] as int], paths[b[k] as int]);
        }
    }
}

/// Whether a device is asked for: any is, unless a path is given.
pub open spec fn wanted(path: Seq<char>, only: Option<&str>) -> bool {
    match only {
        Some(p) => path == p@,
        None => true,
    }
}

/// Whether a device is asked for.
pub fn is_wanted(path: &str, only: Option<&str>) -> (r: bool)
    ensures
        r == wanted(path@, only),
{
    match only {
        Some(p) => same_text(path, p),
        None => true,
    }
}

/// What the devices come to, taken in the given order: those that are asked
/// for and that the filter lets through, or the first error.
pub open spec fn exposed_in_order(
    found: Seq<HidrawAttributes>,
    order: Seq<usize>,
    only: Option<&str>,
    filter: Option<(u16, u16)>,
) -> Result<Seq<ExposedModel>, HidrawError>
    decreases order.len(),
{
    if order.len() == 0 {
        Ok(Seq::empty())
    } else {
        let a = found[order.last() as int];
        match exposed_in_order(found, order.drop_last(), only, filter) {
            Err(e) => Err(e),
            Ok(v) => if !wanted(a.hidraw_path@, only) {
                Ok(v)
            } else {
                match exposed(a, filter) {
                    Err(e) => Err(e),
                    Ok(None) => Ok(v),
                    Ok(Some(d)) => Ok(v.push(d)),
                }
            },
        }
    }
}

/// Makes exposed devices of all that were found, in the order of their paths.
/// A device that is not asked for is passed over; the first whose attributes
/// make no sense ends it.
pub fn expose_all(
    found: &[HidrawAttributes],
    only: Option<&str>,
    filter: Option<(u16, u16)>,
) -> (r: Result<Vec<ExposedHidraw>, HidrawError>)
    ensures
        forall|order: Seq<usize>| #[trigger]
            is_name_order(paths(found@), order) ==> exposed_in_order(found@, order, only, filter)
                == match r {
                Ok(v) => Ok::<Seq<ExposedModel>, HidrawError>(exposed_models(v@)),
                Err(e) => Err::<Seq<ExposedModel>, HidrawError>(e),
            },
        r matches Ok(v) ==> forall|i: int|
            0 <= i < v@.len() ==> {
                &&& filter matches Some((vendor, product)) ==> (#[trigger] v@[i]).summary.vendor_id
                    == vendor && v@[i].summary.product_id == product
                &&& only matches Some(p) ==> v@[i].hidraw_path@ == p@
            },
        r matches Ok(v) ==> forall|i: int|
            0 <= i < found@.len() && asked_for(#[trigger] found@[i], only) ==> match exposed(
                found@[i],
                filter,
            ) {
                Ok(Some(d)) => exposed_models(v@).contains(d),
                Ok(None) => true,
                Err(_) => false,
            },
        r matches Err(e) ==> exists|i: int|
            0 <= i < found@.len() && asked_for(#[trigger] found@[i], only) && exposed(
                found@[i],
                filter,
            ) == Err::<Option<ExposedModel>, HidrawError>(e),
{
    let order = name_order(found);
    let ghost all = order@;
    proof {
        assert forall|o: Seq<usize>| #[trigger] is_name_order(paths(found@), o) implies o == all by {
            lemma_name_order_is_unique(paths(found@), o, all);
        }
    }
    let mut v: Vec<ExposedHidraw> = Vec::new();
    let mut k: usize = 0;
    assert(exposed_models(v@) =~= Seq::<ExposedModel>::empty());
    while k < order.len()
        invariant
            k <= order@.len(),
            all == order@,
            is_name_order(paths(found@), all),
            forall|o: Seq<usize>| #[trigger] is_name_order(paths(found@), o) ==> o == all,
            exposed_in_order(found@, all.take(k as int), only, filter) == Ok::<
                Seq<ExposedModel>,
                HidrawError,
            >(exposed_models(v@)),
            forall|i: int|
                0 <= i < v@.len() ==> {
                    &&& filter matches Some((vendor, product)) ==> (
                    #[trigger] v@[i]).summary.vendor_id == vendor && v@[i].summary.product_id
                        == product
                    &&& only matches Some(p) ==> v@[i].hidraw_path@ == p@
                },
        decreases order@.len() - k,
    {
        let i: usize = order[k];
        assert(all[k as int] < paths(found@).len());
        let a = &found[i];
        let ghost before = v@;
        assert(all.take(k + 1).drop_last() =~= all.take(k as int));
        assert(all.take(k + 1).last() == i);
        if is_wanted(a.hidraw_path.as_str(), only) {
            match expose(a, filter) {
                Ok(Some(d)) => {
                    v.push(d);
                    assert(exposed_models(v@) =~= exposed_models(before).push(d@));
                },
                Ok(None) => {},
                Err(e) => {
                    proof {
                        lemma_error_ends_it(found@, all, (k + 1) as nat, only, filter);
                        assert(asked_for(found@[i as int], only));
                    }
                    return Err(e);
                },
            }
        }
        k += 1;
    }
    assert(all.take(k as int) =~= all);
    proof {
        lemma_none_is_left_out(found@, all, only, filter);
        assert forall|i: int|
            0 <= i < found@.len() && asked_for(#[trigger] found@[i], only) implies match exposed(
            found@[i],
            filter,
        ) {
            Ok(Some(d)) => exposed_models(v@).contains(d),
            Ok(None) => true,
            Err(_) => false,
        } by {
            let len: usize = found.len();
            assert(found@.len() == len);
            assert(all.contains(i as usize));
            let m = choose|m: int| 0 <= m < all.len() && all[m] == i as usize;
            assert(all[m] == i);
        }
    }
    Ok(v)
}

/// An error among the first devices is what all come to.
pub proof fn lemma_error_ends_it(
    found: Seq<HidrawAttributes>,
    order: Seq<usize>,
    n: nat,
    only: Option<&str>,
    filter: Option<(u16, u16)>,
)
    requires
        n <= order.len(),
        exposed_in_order(found, order.take(n as int), only, filter) is Err,
    ensures
        exposed_in_order(found, order, only, filter) == exposed_in_order(
            found,
            order.take(n as int),
            only,
            filter,
        ),
    decreases order.len(),
{
    if n < order.len() {
        assert(order.drop_last().take(n as int) =~= order.take(n as int));
        lemma_error_ends_it(found, order.drop_last(), n, only, filter);
    } else {
        assert(order.take(n as int) =~= order);
    }
}

/// A filter that was written in hexadecimal reads back as its two ids.
pub proof fn lemma_vidpid_round_trip(vendor: u16, product: u16)
    ensures
        vidpid(hex(vendor as nat) + seq![':'] + hex(product as nat)) == Ok::<(u16, u16), VidPidError>((vendor, product)),
{
    let v = hex(vendor as nat);
    let p = hex(product as nat);
    let s = v + seq![':'] + p;
    lemma_index_of(s, ':');
    lemma_no_colon(vendor as nat);
    let n = index_of(s, ':');
    assert(s[v.len() as int] == ':');
    if n < v.len() {
        assert(v[n as int] == s[n as int]);
    }
    assert(n == v.len());
    assert(s.take(n as int) =~= v);
    assert(s.skip(n as int + 1) =~= p);
    lemma_number_round_trip(vendor as nat, 16, 0xFFFF);
    lemma_number_round_trip(product as nat, 16, 0xFFFF);
}

/// No hexadecimal number holds a colon.
proof fn lemma_no_colon(n: nat)
    ensures
        forall|i: int| 0 <= i < hex(n).len() ==> #[trigger] hex(n)[i] != ':',
    decreases n,
{
    let s = hex(n);
    if n >= 16 {
        lemma_no_colon(n / 16);
        let head = hex(n / 16);
        assert(s == head.push(digit_char(n % 16)));
        assert forall|i: int| 0 <= i < s.len() implies #[trigger] s[i] != ':' by {
            if i < head.len() {
                assert(s[i] == head[i]);
            }
        }
    }
}

/// The filter lets a device through just where both its ids are the wanted ones,
/// and then changes nothing against no filter; it never hides an id that makes
/// no sense.
pub proof fn lemma_filter_by_both_ids(a: HidrawAttributes, vendor: u16, product: u16)
    ensures
        ({
            let open = exposed(a, None);
            let filtered = exposed(a, Some((vendor, product)));
            let v = number(trim(a.id_vendor@), 16, 0xFFFF);
            let p = number(trim(a.id_product@), 16, 0xFFFF);
            &&& filtered matches Ok(Some(e)) ==> e.summary.vendor_id == vendor
                && e.summary.product_id == product
            &&& v == Some(vendor as nat) && p == Some(product as nat) ==> filtered == open
            &&& v is Some && p is Some && !(v == Some(vendor as nat) && p == Some(product as nat))
                ==> filtered == Ok::<Option<ExposedModel>, HidrawError>(None)
            &&& v is None ==> filtered == Err::<Option<ExposedModel>, HidrawError>(
                HidrawError::BadVendor,
            ) && open == filtered
            &&& v is Some && p is None ==> filtered == Err::<Option<ExposedModel>, HidrawError>(
                HidrawError::BadProduct,
            ) && open == filtered
            &&& !(open matches Ok(None))
        }),
{
}

/// Every part of an exposed device is that of the attributes it came from.
pub proof fn lemma_exposed_parts(a: HidrawAttributes, filter: Option<(u16, u16)>, e: ExposedModel)
    requires
        exposed(a, filter) == Ok::<Option<ExposedModel>, HidrawError>(Some(e)),
    ensures
        e.hidraw_path == a.hidraw_path@,
        number(trim(a.id_vendor@), 16, 0xFFFF) == Some(e.summary.vendor_id as nat),
        number(trim(a.id_product@), 16, 0xFFFF) == Some(e.summary.product_id as nat),
        a.device_dir matches Some(d) ==> e.summary.busid == d@,
        a.device_dir is None ==> txt_get(line_pairs(lines(a.uevent@)), "DEVNAME"@) == Some(
            e.summary.busid,
        ),
        e.summary.manufacturer is Some <==> a.manufacturer is Some,
        a.manufacturer matches Some(t) ==> e.summary.manufacturer == Some(trim(t@)),
        e.summary.product is Some <==> a.product is Some,
        a.product matches Some(t) ==> e.summary.product == Some(trim(t@)),
        e.summary.serial is Some <==> a.serial is Some,
        a.serial matches Some(t) ==> e.summary.serial == Some(trim(t@)),
        reads_as(a.device_class, e.summary.device_class),
        reads_as(a.device_subclass, e.summary.device_subclass),
        reads_as(a.device_protocol, e.summary.device_protocol),
        reads_as(a.interface_class, e.interface_class),
        reads_as(a.interface_protocol, e.interface_protocol),
        e.summary.is_hid <==> e.interface_class == 3,
{
}

/// Whether a byte is what an attribute reads as in hexadecimal, or 0 where it is
/// missing or no such number.
pub open spec fn reads_as(raw: Option<String>, n: u8) -> bool {
    raw matches Some(t) && number(trim(t@), 16, 0xFF) == Some(n as nat) || n == 0 && !(
    raw matches Some(t) && number(trim(t@), 16, 0xFF) is Some)
}

/// Whether a device is asked for, by its path: any is where no path is given.
pub proof fn lemma_wanted_by_path(path: Seq<char>, only: Option<&str>)
    ensures
        only is None ==> wanted(path, only),
        only matches Some(p) ==> (wanted(path, only) <==> path == p@),
{
}

/// What is exposed of devices in some order: of those that are asked for, each
/// that the filter lets through, once and in that order; and all of this only
/// where none that is asked for makes no sense.
pub proof fn lemma_exposed_one_more(
    found: Seq<HidrawAttributes>,
    order: Seq<usize>,
    next: usize,
    only: Option<&str>,
    filter: Option<(u16, u16)>,
)
    ensures
        exposed_in_order(found, Seq::empty(), only, filter) == Ok::<
            Seq<ExposedModel>,
            HidrawError,
        >(Seq::empty()),
        ({
            let before = exposed_in_order(found, order, only, filter);
            let after = exposed_in_order(found, order.push(next), only, filter);
            let a = found[next as int];
            let asked = only matches Some(p) ==> a.hidraw_path@ == p@;
            &&& before is Err ==> after == before
            &&& before is Ok && !asked ==> after == before
            &&& before is Ok && asked ==> match exposed(a, filter) {
                Err(e) => after == Err::<Seq<ExposedModel>, HidrawError>(e),
                Ok(None) => after == before,
                Ok(Some(d)) => after matches Ok(v) && v.len() == before->Ok_0.len() + 1 && v.last()
                    == d && forall|i: int|
                    0 <= i < before->Ok_0.len() ==> #[trigger] v[i] == before->Ok_0[i],
            }
        }),
{
    assert(order.push(next).drop_last() =~= order);
    assert(order.push(next).last() == next);
}

/// Exposed devices come in the order of their paths.
pub proof fn lemma_exposed_in_path_order(
    found: Seq<HidrawAttributes>,
    order: Seq<usize>,
    only: Option<&str>,
    filter: Option<(u16, u16)>,
    i: int,
    j: int,
)
    requires
        is_name_order(paths(found), order),
        exposed_in_order(found, order, only, filter) is Ok,
        0 <= i < j < exposed_in_order(found, order, only, filter)->Ok_0.len(),
    ensures
        ({
            let v = exposed_in_order(found, order, only, filter)->Ok_0;
            !text_less(v[j].hidraw_path, v[i].hidraw_path)
        }),
{
    lemma_exposed_sources(found, order, only, filter);
    let at = exposed_sources(found, order, only, filter);
    let p = paths(found);
    assert(at[i] < at[j]);
    assert(order[at[i]] < p.len() && order[at[j]] < p.len());
    assert(stands_before(p, order[at[i]] as int, order[at[j]] as int));
    lemma_text_order_total(p[order[at[i]] as int], p[order[at[j]] as int]);
}

/// Where in the order each exposed device comes from.
pub open spec fn exposed_sources(
    found: Seq<HidrawAttributes>,
    order: Seq<usize>,
    only: Option<&str>,
    filter: Option<(u16, u16)>,
) -> Seq<int>
    decreases order.len(),
{
    if order.len() == 0 {
        Seq::empty()
    } else {
        let a = found[order.last() as int];
        let head = exposed_sources(found, order.drop_last(), only, filter);
        if wanted(a.hidraw_path@, only) && exposed(a, filter) matches Ok(Some(_)) {
            head.push(order.len() - 1)
        } else {
            head
        }
    }
}

proof fn lemma_exposed_sources(
    found: Seq<HidrawAttributes>,
    order: Seq<usize>,
    only: Option<&str>,
    filter: Option<(u16, u16)>,
)
    requires
        exposed_in_order(found, order, only, filter) is Ok,
    ensures
        ({
            let v = exposed_in_order(found, order, only, filter)->Ok_0;
            let at = exposed_sources(found, order, only, filter);
            &&& at.len() == v.len()
            &&& forall|i: int|
                0 <= i < at.len() ==> 0 <= #[trigger] at[i] < order.len() && v[i].hidraw_path
                    == found[order[at[i]] as int].hidraw_path@
            &&& forall|i: int, j: int|
                0 <= i < j < at.len() ==> #[trigger] at[i] < #[trigger] at[j]
        }),
    decreases order.len(),
{
    if order.len() > 0 {
        lemma_exposed_sources(found, order.drop_last(), only, filter);
        let head = order.drop_last();
        let at = exposed_sources(found, head, only, filter);
        assert forall|i: int| 0 <= i < at.len() implies order[#[trigger] at[i]] == head[at[i]] by {}
    }
}

/// A line of a `uevent` file is a pair where it holds an equals sign: the key in
/// front of the first one and the value behind it.
pub proof fn lemma_pair_of_line(key: Seq<char>, value: Seq<char>, line: Seq<char>)
    ensures
        !key.contains('=') ==> line_pair(key + seq!['='] + value) == Some((key, value)),
        !line.contains('=') ==> line_pair(line) is None,
{
    if !key.contains('=') {
        let s = key + seq!['='] + value;
        lemma_index_of(s, '=');
        let n = index_of(s, '=');
        assert(s[key.len() as int] == '=');
        if n < key.len() {
            assert(key[n as int] == s[n as int]);
            assert(key.contains('='));
        }
        assert(s.take(n as int) =~= key);
        assert(s.skip(n as int + 1) =~= value);
    }
    lemma_index_of(line, '=');
    if index_of(line, '=') < line.len() {
        assert(line.contains(line[index_of(line, '=') as int]));
    }
}

/// The pairs of a file are those of its lines, in order; other lines do not
/// count.
pub proof fn lemma_pairs_line_by_line(rows: Seq<Seq<char>>, line: Seq<char>)
    ensures
        line_pairs(Seq::<Seq<char>>::empty()) == Seq::<(Seq<char>, Seq<char>)>::empty(),
        line_pair(line) is None ==> line_pairs(rows.push(line)) == line_pairs(rows),
        line_pair(line) matches Some(p) ==> line_pairs(rows.push(line)) == line_pairs(rows).push(p),
{
    assert(rows.push(line).drop_last() =~= rows);
    assert(line_pairs(rows.push(line)) =~= match line_pair(line) {
        Some(p) => line_pairs(rows).push(p),
        None => line_pairs(rows),
    });
}

/// A `uevent` file is that of a USB device where its last `DEVTYPE` says so.
pub proof fn lemma_usb_device_by_devtype(text: Seq<char>)
    ensures
        says_usb_device(text) <==> txt_get(line_pairs(lines(text)), "DEVTYPE"@) == Some(
            "usb_device"@,
        ),
{
}

/// How a `vvvv:pppp` filter is read: vendor in front of the first colon, product
/// behind it, each a hexadecimal number of 16 bits.
pub proof fn lemma_vidpid_parts(vendor: Seq<char>, product: Seq<char>)
    requires
        !vendor.contains(':'),
    ensures
        ({
            let r = vidpid(vendor + seq![':'] + product);
            &&& number(vendor, 16, 0xFFFF) is None ==> r == Err::<(u16, u16), VidPidError>(
                VidPidError::BadVendor,
            )
            &&& number(vendor, 16, 0xFFFF) is Some && number(product, 16, 0xFFFF) is None ==> r
                == Err::<(u16, u16), VidPidError>(VidPidError::BadProduct)
            &&& number(vendor, 16, 0xFFFF) matches Some(v) ==> number(
                product,
                16,
                0xFFFF,
            ) matches Some(p) ==> r == Ok::<(u16, u16), VidPidError>((v as u16, p as u16))
        }),
{
    let s = vendor + seq![':'] + product;
    lemma_index_of(s, ':');
    let n = index_of(s, ':');
    assert(s[vendor.len() as int] == ':');
    if n < vendor.len() {
        assert(vendor[n as int] == s[n as int]);
        assert(vendor.contains(':'));
    }
    assert(s.take(n as int) =~= vendor);
    assert(s.skip(n as int + 1) =~= product);
}

/// A directory on the way up is that of a USB device where its `uevent` can be
/// read and says so.
pub proof fn lemma_usb_device_at(uevents: Seq<Option<String>>, i: int)
    ensures
        usb_device_at(uevents, i) <==> (uevents[i] matches Some(text) && txt_get(
            line_pairs(lines(text@)),
            "DEVTYPE"@,
        ) == Some("usb_device"@)),
{
}

/// Whether a device is asked for: any is where no path is given, else the one
/// with that path.
pub open spec fn asked_for(a: HidrawAttributes, only: Option<&str>) -> bool {
    only matches Some(p) ==> a.hidraw_path@ == p@
}

/// No device that is asked for is left out or makes no sense, where all goes
/// well.
proof fn lemma_none_is_left_out(
    found: Seq<HidrawAttributes>,
    order: Seq<usize>,
    only: Option<&str>,
    filter: Option<(u16, u16)>,
)
    requires
        exposed_in_order(found, order, only, filter) is Ok,
    ensures
        forall|k: int|
            0 <= k < order.len() && asked_for(found[(#[trigger] order[k]) as int], only)
                ==> match exposed(found[order[k] as int], filter) {
                Ok(Some(d)) => exposed_in_order(found, order, only, filter)->Ok_0.contains(d),
                Ok(None) => true,
                Err(_) => false,
            },
    decreases order.len(),
{
    if order.len() > 0 {
        let head = order.drop_last();
        lemma_none_is_left_out(found, head, only, filter);
        let v = exposed_in_order(found, order, only, filter)->Ok_0;
        let w = exposed_in_order(found, head, only, filter)->Ok_0;
        assert forall|k: int|
            0 <= k < order.len() && asked_for(found[(#[trigger] order[k]) as int], only) implies match exposed(
            found[order[k] as int],
            filter,
        ) {
            Ok(Some(d)) => v.contains(d),
            Ok(None) => true,
            Err(_) => false,
        } by {
            if k < head.len() {
                assert(head[k] == order[k]);
                if let Ok(Some(d)) = exposed(found[order[k] as int], filter) {
                    let i = choose|i: int| 0 <= i < w.len() && w[i] == d;
                    assert(v[i] == d);
                }
            } else if let Ok(Some(d)) = exposed(found[order[k] as int], filter) {
                assert(v.last() == d);
            }
        }
    }
}

} // verus!
