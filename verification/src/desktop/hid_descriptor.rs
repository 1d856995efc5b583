//! Minimal HID report descriptor inspection.
//!
//! The sender does the parsing and tells the receiver the device kind. What is
//! here serves as a check on what the sender claimed, and supplies
//! real-looking descriptors.
//!
//! Reference: USB HID Usage Tables 1.4, section 4.

use vstd::prelude::*;

verus! {

/// Usage page "Generic Desktop".
pub const USAGE_PAGE_GENERIC_DESKTOP: u8 = 0x01;

pub const USAGE_MOUSE: u8 = 0x02;

pub const USAGE_KEYBOARD: u8 = 0x06;

pub const USAGE_GAMEPAD: u8 = 0x05;

pub const USAGE_JOYSTICK: u8 = 0x04;

/// Coarse classification by the descriptor's first Generic Desktop usage.
#[derive(Copy, Clone, Debug, PartialEq, Eq, Structural)]
pub enum Kind {
    Mouse,
    Keyboard,
    Gamepad,
    Other,
}

/// The number of data bytes behind an item's prefix: the low two bits say 0,
/// 1, 2 or 4.
pub open spec fn item_size(prefix: u8) -> nat {
    if prefix % 4 == 3 {
        4
    } else {
        (prefix % 4) as nat
    }
}

/// The data of the item at the front of `desc`: a little-endian number of as many
/// bytes as the item has, 0 for none.
pub open spec fn item_value(desc: Seq<u8>) -> u32 {
    let size = item_size(desc[0]);
    (if size == 0 {
        0int
    } else if size == 1 {
        desc[1] as int
    } else if size == 2 {
        desc[1] + 0x100 * desc[2]
    } else {
        desc[1] + 0x100 * desc[2] + 0x1_0000 * desc[3] + 0x100_0000 * desc[4]
    }) as u32
}

/// The usage page that a usage is of: a four-byte usage carries its own page
/// in the upper half, any other is of the page that was given last.
pub open spec fn usage_page(usage: u32, page: Option<u32>) -> Option<u32> {
    if usage >= 0x1_0000 {
        Some(usage / 0x1_0000)
    } else {
        page
    }
}

/// The first usage of the Generic Desktop page that the items of `desc` give,
/// without the page it may carry. An item that is cut off ends the search.
pub open spec fn first_desktop_usage(desc: Seq<u8>, page: Option<u32>) -> Option<u32>
    decreases desc.len(),
{
    if desc.len() == 0 || desc.len() < 1 + item_size(desc[0]) {
        None
    } else {
        let tag = desc[0] - desc[0] % 4;
        let value = item_value(desc);
        let rest = desc.skip(1 + item_size(desc[0]) as int);
        if tag == 0x04 {
            first_desktop_usage(rest, Some(value))
        } else if tag == 0x08 && usage_page(value, page) == Some(
            USAGE_PAGE_GENERIC_DESKTOP as u32,
        ) {
            Some(value % 0x1_0000)
        } else {
            first_desktop_usage(rest, page)
        }
    }
}

/// The kind that a Generic Desktop usage stands for.
pub open spec fn kind_of_usage(usage: Option<u32>) -> Kind {
    match usage {
        Some(u) => if u == USAGE_MOUSE {
            Kind::Mouse
        } else if u == USAGE_KEYBOARD {
            Kind::Keyboard
        } else if u == USAGE_GAMEPAD || u == USAGE_JOYSTICK {
            Kind::Gamepad
        } else {
            Kind::Other
        },
        None => Kind::Other,
    }
}

/// Reads the data of the item that starts at `at` and has `size` data bytes.
fn read_value(desc: &[u8], at: usize, size: usize) -> (v: u32)
    requires
        at + 1 + size <= desc@.len(),
        size == item_size(desc@[at as int]),
    ensures
        v == item_value(desc@.skip(at as int)),
{
    let ghost here = desc@.skip(at as int);
    assert(here[0] == desc@[at as int]);
    let len: usize = desc.len();
    assert(at + 1 + size <= len);
    if size == 0 {
        0
    } else if size == 1 {
        desc[at + 1] as u32
    } else if size == 2 {
        desc[at + 1] as u32 + 0x100 * desc[at + 2] as u32
    } else {
        desc[at + 1] as u32 + 0x100 * desc[at + 2] as u32 + 0x1_0000 * desc[at + 3] as u32
            + 0x100_0000 * desc[at + 4] as u32
    }
}

/// Best effort: classifies a report descriptor by its first usage. `Other` if
/// that does not tell.
pub fn classify(desc: &[u8]) -> (k: Kind)
    ensures
        k == kind_of_usage(first_desktop_usage(desc@, None)),
{
    let mut page: Option<u32> = None;
    let mut i: usize = 0;
    assert(desc@.skip(0) =~= desc@);
    while i < desc.len()
        invariant
            i <= desc@.len(),
            first_desktop_usage(desc@, None) == first_desktop_usage(desc@.skip(i as int), page),
        decreases desc@.len() - i,
    {
        let prefix: u8 = desc[i];
        let ghost here = desc@.skip(i as int);
        assert(here[0] == prefix);
        let size: usize = if prefix % 4 == 3 {
            4
        } else {
            (prefix % 4) as usize
        };
        let tag: u8 = prefix - prefix % 4;
        if desc.len() - i < 1 + size {
            return Kind::Other;
        }
        let value: u32 = read_value(desc, i, size);
        assert(here.skip(1 + size as int) =~= desc@.skip(i + 1 + size));
        if tag == 0x04 {
            page = Some(value);
        } else if tag == 0x08 {
            let of: Option<u32> = if value >= 0x1_0000 {
                Some(value / 0x1_0000)
            } else {
                page
            };
            if let Some(p) = of {
                if p == USAGE_PAGE_GENERIC_DESKTOP as u32 {
                    let usage: u32 = value % 0x1_0000;
                    return if usage == USAGE_MOUSE as u32 {
                        Kind::Mouse
                    } else if usage == USAGE_KEYBOARD as u32 {
                        Kind::Keyboard
                    } else if usage == USAGE_GAMEPAD as u32 || usage == USAGE_JOYSTICK as u32 {
                        Kind::Gamepad
                    } else {
                        Kind::Other
                    };
                }
            }
        }
        i += 1 + size;
    }
    Kind::Other
}

/// The bytes of `mouse_descriptor`.
pub open spec fn mouse_descriptor_bytes() -> Seq<u8> {
    seq![
        0x05u8, 0x01,  // Usage Page (Generic Desktop)
        0x09, 0x02,  // Usage (Mouse)
        0xA1, 0x01,  // Collection (Application)
        0x09, 0x01,  //   Usage (Pointer)
        0xA1, 0x00,  //   Collection (Physical)
        0x05, 0x09,  //     Usage Page (Button)
        0x19, 0x01,  //     Usage Minimum (1)
        0x29, 0x05,  //     Usage Maximum (5)
        0x15, 0x00,  //     Logical Minimum (0)
        0x25, 0x01,  //     Logical Maximum (1)
        0x95, 0x05,  //     Report Count (5)
        0x75, 0x01,  //     Report Size (1)
        0x81, 0x02,  //     Input (Data,Var,Abs)
        0x95, 0x01,  //     Report Count (1)
        0x75, 0x03,  //     Report Size (3), padding
        0x81, 0x03,  //     Input (Cnst,Var,Abs)
        0x05, 0x01,  //     Usage Page (Generic Desktop)
        0x09, 0x30,  //     Usage (X)
        0x09, 0x31,  //     Usage (Y)
        0x09, 0x38,  //     Usage (Wheel)
        0x15, 0x81,  //     Logical Minimum (-127)
        0x25, 0x7F,  //     Logical Maximum (127)
        0x75, 0x08,  //     Report Size (8)
        0x95, 0x03,  //     Report Count (3)
        0x81, 0x06,  //     Input (Data,Var,Rel)
        0xC0,  //   End Collection
        0xC0,  // End Collection
    ]
}

/// A textbook boot-mouse report descriptor (5 buttons, X, Y, wheel).
pub fn mouse_descriptor() -> (v: Vec<u8>)
    ensures
        v@ == mouse_descriptor_bytes(),
        v@.len() == 52,
        kind_of_usage(first_desktop_usage(v@, None)) == Kind::Mouse,
{
    let v: Vec<u8> = vec![
        0x05, 0x01, 0x09, 0x02, 0xA1, 0x01, 0x09, 0x01, 0xA1, 0x00, 0x05, 0x09, 0x19, 0x01, 0x29,
        0x05, 0x15, 0x00, 0x25, 0x01, 0x95, 0x05, 0x75, 0x01, 0x81, 0x02, 0x95, 0x01, 0x75, 0x03,
        0x81, 0x03, 0x05, 0x01, 0x09, 0x30, 0x09, 0x31, 0x09, 0x38, 0x15, 0x81, 0x25, 0x7F, 0x75,
        0x08, 0x95, 0x03, 0x81, 0x06, 0xC0, 0xC0,
    ];
    assert(v@ =~= mouse_descriptor_bytes());
    proof {
        lemma_first_pair(v@, 0x02);
    }
    v
}

/// The bytes of `keyboard_descriptor`.
pub open spec fn keyboard_descriptor_bytes() -> Seq<u8> {
    seq![
        0x05u8, 0x01,  // Usage Page (Generic Desktop)
        0x09, 0x06,  // Usage (Keyboard)
        0xA1, 0x01,  // Collection (Application)
        0xC0,  // End Collection
    ]
}

/// A short keyboard descriptor, just enough for the classifier.
pub fn keyboard_descriptor() -> (v: Vec<u8>)
    ensures
        v@ == keyboard_descriptor_bytes(),
        kind_of_usage(first_desktop_usage(v@, None)) == Kind::Keyboard,
{
    let v: Vec<u8> = vec![0x05, 0x01, 0x09, 0x06, 0xA1, 0x01, 0xC0];
    assert(v@ =~= keyboard_descriptor_bytes());
    proof {
        lemma_first_pair(v@, 0x06);
    }
    v
}

/// A descriptor that opens with "Usage Page (Generic Desktop), Usage (u)" is
/// classified by `u`, whatever follows.
pub proof fn lemma_first_pair(desc: Seq<u8>, u: u8)
    requires
        desc.len() >= 4,
        desc[0] == 0x05,
        desc[1] == USAGE_PAGE_GENERIC_DESKTOP,
        desc[2] == 0x09,
        desc[3] == u,
    ensures
        first_desktop_usage(desc, None) == Some(u as u32),
{
    let rest = desc.skip(2);
    assert(rest[0] == 0x09 && rest[1] == u);
    assert(first_desktop_usage(rest, Some(1u32)) == Some(u as u32));
}

/// How a descriptor is walked, item by item. The low two bits of an item's first
/// byte say how many data bytes follow, with three standing for four; where
/// they do not all follow, the walk ends. A usage page counts from there on; a
/// usage counts where its page, its own in its upper half or else the last one
/// given, is 1; all other items are passed over.
pub proof fn lemma_descriptor_item(desc: Seq<u8>, page: Option<u32>)
    requires
        desc.len() > 0,
    ensures
        ({
            let n: int = if desc[0] % 4 == 3 {
                4
            } else {
                (desc[0] % 4) as int
            };
            let low = desc[1] + 0x100 * desc[2];
            let high = desc[3] + 0x100 * desc[4];
            let value: int = if n == 0 {
                0
            } else if n == 1 {
                desc[1] as int
            } else if n == 2 {
                low
            } else {
                low + 0x1_0000 * high
            };
            let r = first_desktop_usage(desc, page);
            let rest = desc.skip(1 + n);
            let own_page = n == 4 && high != 0;
            &&& desc.len() < 1 + n ==> r is None
            &&& desc.len() >= 1 + n && 4 <= desc[0] <= 7 ==> r == first_desktop_usage(
                rest,
                Some(value as u32),
            )
            &&& desc.len() >= 1 + n && 8 <= desc[0] <= 11 && (if own_page {
                high == 1
            } else {
                page == Some(1u32)
            }) ==> r == Some((if n == 4 {
                low
            } else {
                value
            }) as u32)
            &&& desc.len() >= 1 + n && 8 <= desc[0] <= 11 && !(if own_page {
                high == 1
            } else {
                page == Some(1u32)
            }) ==> r == first_desktop_usage(rest, page)
            &&& desc.len() >= 1 + n && !(4 <= desc[0] <= 11) ==> r == first_desktop_usage(
                rest,
                page,
            )
        }),
        first_desktop_usage(Seq::<u8>::empty(), page) is None,
{
}

/// What the usages stand for: 2 is a mouse, 6 a keyboard, 4 and 5 game controllers;
/// nothing else is known.
pub proof fn lemma_kinds_by_usage(usage: Option<u32>)
    ensures
        kind_of_usage(usage) == Kind::Mouse <==> usage == Some(2u32),
        kind_of_usage(usage) == Kind::Keyboard <==> usage == Some(6u32),
        kind_of_usage(usage) == Kind::Gamepad <==> usage == Some(4u32) || usage == Some(5u32),
{
}

/// What the mouse descriptor says: an application collection for a mouse with a
/// physical one for its pointer in it, closed again at the end; five buttons of
/// one bit each with three bits behind them, then X, Y and wheel of eight bits
/// each from -127 to 127. That is a report of four bytes.
pub proof fn lemma_mouse_descriptor_says()
    ensures
        ({
            let d = mouse_descriptor_bytes();
            let buttons = d[20] == 0x95 && d[22] == 0x75 && d[24] == 0x81 && d[25] == 0x02;
            let padding = d[26] == 0x95 && d[28] == 0x75 && d[30] == 0x81 && d[31] == 0x03;
            let axes = d[44] == 0x75 && d[46] == 0x95 && d[48] == 0x81 && d[49] == 0x06;
            &&& d.len() == 52
            &&& d[0] == 0x05 && d[1] == 0x01 && d[2] == 0x09 && d[3] == 0x02
            &&& d[4] == 0xA1 && d[5] == 0x01 && d[6] == 0x09 && d[7] == 0x01
            &&& d[8] == 0xA1 && d[9] == 0x00
            &&& d[10] == 0x05 && d[11] == 0x09 && d[12] == 0x19 && d[13] == 1
            &&& d[14] == 0x29 && d[15] == d[21]
            &&& d[16] == 0x15 && d[17] == 0 && d[18] == 0x25 && d[19] == 1
            &&& buttons && padding && axes
            &&& d[21] == 5 && d[23] == 1
            &&& d[21] * d[23] + d[27] * d[29] == 8
            &&& d[27] == 1
            &&& d[32] == 0x05 && d[33] == 0x01
            &&& d[34] == 0x09 && d[35] == 0x30 && d[36] == 0x09 && d[37] == 0x31
            &&& d[38] == 0x09 && d[39] == 0x38
            &&& d[40] == 0x15 && d[41] - 256 == -127 && d[42] == 0x25 && d[43] == 127
            &&& d[45] == 8 && d[47] == 3
            &&& d[50] == 0xC0 && d[51] == 0xC0
        }),
        keyboard_descriptor_bytes() == seq![0x05u8, 0x01, 0x09, 0x06, 0xA1, 0x01, 0xC0],
{
    assert(keyboard_descriptor_bytes() =~= seq![0x05u8, 0x01, 0x09, 0x06, 0xA1, 0x01, 0xC0]);
}

} // verus!
