//! What the Linux `uinput` backend is told: capabilities, identification and
//! input events.
//!
//! The device node is driven by a series of `UI_SET_*BIT` ioctls, one
//! `UI_DEV_SETUP` with an identification block, `UI_DEV_CREATE`, and then
//! `input_event` records; `UI_DEV_DESTROY` tears it down.

use vstd::prelude::*;

verus! {

/// Synchronization events.
pub const EV_SYN: u16 = 0x00;

/// Keys and buttons.
pub const EV_KEY: u16 = 0x01;

/// Relative axes.
pub const EV_REL: u16 = 0x02;

/// Ends a packet of events.
pub const SYN_REPORT: u16 = 0;

pub const REL_X: u16 = 0x00;

pub const REL_Y: u16 = 0x01;

pub const REL_WHEEL: u16 = 0x08;

pub const REL_HWHEEL: u16 = 0x06;

pub const BTN_LEFT: u16 = 0x110;

pub const BTN_RIGHT: u16 = 0x111;

pub const BTN_MIDDLE: u16 = 0x112;

pub const BTN_SIDE: u16 = 0x113;

pub const BTN_EXTRA: u16 = 0x114;

/// `_IOW('U', 100, int)`.
pub const UI_SET_EVBIT: u64 = 0x4004_5564;

/// `_IOW('U', 101, int)`.
pub const UI_SET_KEYBIT: u64 = 0x4004_5565;

/// `_IOW('U', 102, int)`.
pub const UI_SET_RELBIT: u64 = 0x4004_5566;

/// `_IOW('U', 3, struct uinput_setup)`; the structure has 92 bytes.
pub const UI_DEV_SETUP: u64 = 0x405C_5503;

/// `_IO('U', 1)`.
pub const UI_DEV_CREATE: u64 = 0x5501;

/// `_IO('U', 2)`.
pub const UI_DEV_DESTROY: u64 = 0x5502;

/// The kernel's encoding of an ioctl number.
pub open spec fn ioctl_number(dir: u64, typ: u8, nr: u8, size: u64) -> u64 {
    (dir << 30) | (size << 16) | ((typ as u64) << 8) | (nr as u64)
}

/// An ioctl without argument.
pub fn ioctl_io(typ: u8, nr: u8) -> (n: u64)
    ensures
        n == ioctl_number(0, typ, nr, 0),
        n == 0x100 * typ + nr,
{
    assert((0u64 << 30) | (0u64 << 16) | ((typ as u64) << 8) | (nr as u64) == 0x100 * typ + nr)
        by (bit_vector);

    (0u64 << 30) | (0u64 << 16) | ((typ as u64) << 8) | (nr as u64)
}

/// An ioctl that hands `size` bytes to the kernel.
pub fn ioctl_iow(typ: u8, nr: u8, size: usize) -> (n: u64)
    ensures
        n == ioctl_number(1, typ, nr, size as u64),
        size < 0x4000 ==> n == 0x4000_0000 + 0x1_0000 * size + 0x100 * typ + nr,
{
    let wide: u64 = size as u64;
    assert(wide < 0x4000 ==> (1u64 << 30) | (wide << 16) | ((typ as u64) << 8) | (nr as u64)
        == 0x4000_0000 + 0x1_0000 * wide + 0x100 * typ + nr) by (bit_vector);

    (1u64 << 30) | ((size as u64) << 16) | ((typ as u64) << 8) | (nr as u64)
}

/// The ioctl constants are the numbers of the kernel's macros.
pub proof fn lemma_ioctl_numbers()
    ensures
        UI_SET_EVBIT == ioctl_number(1, 0x55, 100, 4),
        UI_SET_KEYBIT == ioctl_number(1, 0x55, 101, 4),
        UI_SET_RELBIT == ioctl_number(1, 0x55, 102, 4),
        UI_DEV_SETUP == ioctl_number(1, 0x55, 3, 92),
        UI_DEV_CREATE == ioctl_number(0, 0x55, 1, 0),
        UI_DEV_DESTROY == ioctl_number(0, 0x55, 2, 0),
{
    assert(0x4004_5564u64 == (1u64 << 30) | (4u64 << 16) | ((0x55u8 as u64) << 8) | (100u8 as u64))
        by (bit_vector);
    assert(0x4004_5565u64 == (1u64 << 30) | (4u64 << 16) | ((0x55u8 as u64) << 8) | (101u8 as u64))
        by (bit_vector);
    assert(0x4004_5566u64 == (1u64 << 30) | (4u64 << 16) | ((0x55u8 as u64) << 8) | (102u8 as u64))
        by (bit_vector);
    assert(0x405C_5503u64 == (1u64 << 30) | (92u64 << 16) | ((0x55u8 as u64) << 8) | (3u8 as u64))
        by (bit_vector);
    assert(0x5501u64 == (0u64 << 30) | (0u64 << 16) | ((0x55u8 as u64) << 8) | (1u8 as u64))
        by (bit_vector);
    assert(0x5502u64 == (0u64 << 30) | (0u64 << 16) | ((0x55u8 as u64) << 8) | (2u8 as u64))
        by (bit_vector);
}

/// One input event, without its timestamp.
#[derive(Clone, Copy, Debug, PartialEq, Eq, Structural)]
pub struct InputEvent {
    pub type_: u16,
    pub code: u16,
    pub value: i32,
}

/// The event that ends a packet.
pub open spec fn sync_event() -> InputEvent {
    InputEvent { type_: EV_SYN, code: SYN_REPORT, value: 0 }
}

/// The event of one axis, if it moved.
pub open spec fn axis_events(code: u16, value: i32) -> Seq<InputEvent> {
    if value == 0 {
        Seq::empty()
    } else {
        seq![InputEvent { type_: EV_REL, code, value }]
    }
}

/// The events of a pointer motion.
pub open spec fn move_events(dx: i32, dy: i32) -> Seq<InputEvent> {
    axis_events(REL_X, dx) + axis_events(REL_Y, dy) + seq![sync_event()]
}

/// The events of a wheel tick, positive being up.
pub open spec fn wheel_events(dv: i32, dh: i32) -> Seq<InputEvent> {
    axis_events(REL_WHEEL, dv) + axis_events(REL_HWHEEL, dh) + seq![sync_event()]
}

/// The events of a key or button that goes down or up.
pub open spec fn key_events(code: u16, pressed: bool) -> Seq<InputEvent> {
    seq![
        InputEvent {
            type_: EV_KEY,
            code,
            value: if pressed {
                1
            } else {
                0
            },
        },
        sync_event(),
    ]
}

/// A virtual input device: whether the kernel still has it, and the events that
/// are to be written to it.
#[derive(Debug)]
pub struct UinputDevice {
    /// `true` until the kernel has removed the device.
    pub live: bool,
    pub pending: Vec<InputEvent>,
}

impl UinputDevice {
    /// Whether only events were added since `before`.
    pub open spec fn emitted(self, before: UinputDevice, events: Seq<InputEvent>) -> bool {
        self.live == before.live && self.pending@ == before.pending@ + events
    }

    /// A new device, and what the kernel has to be told to create it.
    pub fn create(profile: &DeviceProfile) -> (r: (UinputDevice, Vec<Capability>, UinputSetup))
        ensures
            r.0.live,
            r.0.pending@ == Seq::<InputEvent>::empty(),
            r.1@ == capability_list(profile@.keyboard),
            is_setup_of(r.2, profile@),
    {
        (
            UinputDevice { live: true, pending: Vec::new() },
            capabilities(profile),
            setup_block(profile),
        )
    }

    fn write_event(&mut self, type_: u16, code: u16, value: i32)
        ensures
            final(self).emitted(*old(self), seq![InputEvent { type_, code, value }]),
    {
        self.pending.push(InputEvent { type_, code, value });
        assert(self.pending@ =~= old(self).pending@ + seq![InputEvent { type_, code, value }]);
    }

    fn sync(&mut self)
        ensures
            final(self).emitted(*old(self), seq![sync_event()]),
    {
        self.write_event(EV_SYN, SYN_REPORT, 0);
    }

    /// Emits a relative pointer motion and its end of packet.
    pub fn mouse_move(&mut self, dx: i32, dy: i32)
        ensures
            final(self).emitted(*old(self), move_events(dx, dy)),
            ({
                let n = old(self).pending@.len() as int;
                let v = final(self).pending@;
                &&& dx != 0 ==> v[n] == (InputEvent { type_: 2, code: 0, value: dx })
                &&& dy != 0 ==> v[v.len() - 2] == (InputEvent { type_: 2, code: 1, value: dy })
                &&& v.last() == (InputEvent { type_: 0, code: 0, value: 0 })
                &&& v.len() == n + 1 + (if dx != 0 {
                    1int
                } else {
                    0
                }) + (if dy != 0 {
                    1int
                } else {
                    0
                })
            }),
    {
        if dx != 0 {
            self.write_event(EV_REL, REL_X, dx);
        }
        if dy != 0 {
            self.write_event(EV_REL, REL_Y, dy);
        }
        self.sync();
        assert(self.pending@ =~= old(self).pending@ + move_events(dx, dy));
    }

    /// Emits a wheel tick (positive is up) and its end of packet.
    pub fn mouse_wheel(&mut self, dv: i32, dh: i32)
        ensures
            final(self).emitted(*old(self), wheel_events(dv, dh)),
            ({
                let n = old(self).pending@.len() as int;
                let v = final(self).pending@;
                &&& dv != 0 ==> v[n] == (InputEvent { type_: 2, code: 8, value: dv })
                &&& dh != 0 ==> v[v.len() - 2] == (InputEvent { type_: 2, code: 6, value: dh })
                &&& v.last() == (InputEvent { type_: 0, code: 0, value: 0 })
                &&& v.len() == n + 1 + (if dv != 0 {
                    1int
                } else {
                    0
                }) + (if dh != 0 {
                    1int
                } else {
                    0
                })
            }),
    {
        if dv != 0 {
            self.write_event(EV_REL, REL_WHEEL, dv);
        }
        if dh != 0 {
            self.write_event(EV_REL, REL_HWHEEL, dh);
        }
        self.sync();
        assert(self.pending@ =~= old(self).pending@ + wheel_events(dv, dh));
    }

    /// Presses or releases a button.
    pub fn mouse_button(&mut self, button: u16, pressed: bool)
        ensures
            final(self).emitted(*old(self), key_events(button, pressed)),
            final(self).pending@ == old(self).pending@.push(
                InputEvent {
                    type_: 1,
                    code: button,
                    value: if pressed {
                        1
                    } else {
                        0
                    },
                },
            ).push(InputEvent { type_: 0, code: 0, value: 0 }),
    {
        self.key(button, pressed);
    }

    /// Presses or releases a key.
    pub fn key(&mut self, code: u16, pressed: bool)
        ensures
            final(self).emitted(*old(self), key_events(code, pressed)),
            final(self).pending@ == old(self).pending@.push(
                InputEvent {
                    type_: 1,
                    code,
                    value: if pressed {
                        1
                    } else {
                        0
                    },
                },
            ).push(InputEvent { type_: 0, code: 0, value: 0 }),
    {
        self.write_event(EV_KEY, code, if pressed { 1 } else { 0 });
        self.sync();
        assert(self.pending@ =~= old(self).pending@ + key_events(code, pressed));
    }

    /// Hands out the events that are to be written.
    pub fn take_pending(&mut self) -> (v: Vec<InputEvent>)
        ensures
            v@ == old(self).pending@,
            final(self).pending@ == Seq::<InputEvent>::empty(),
            final(self).live == old(self).live,
    {
        let mut v: Vec<InputEvent> = Vec::new();
        v.append(&mut self.pending);
        assert(v@ =~= old(self).pending@);
        v
    }

    /// Whether the kernel has to be told to remove the device. It has been told
    /// where `destroyed` was called.
    pub fn destroy(&self) -> (r: bool)
        ensures
            r == self.live,
    {
        self.live
    }

    /// Notes that the kernel has removed the device. Where it failed to, this is
    /// not called, and `destroy` asks again.
    pub fn destroyed(&mut self)
        ensures
            !final(self).live,
            final(self).pending@ == old(self).pending@,
    {
        self.live = false;
    }
}

/// What to expose.
#[derive(Clone, Debug)]
pub enum DeviceProfile {
    /// Relative-mode mouse: X, Y, two wheels, 5 buttons.
    Mouse { name: String, vendor_id: u16, product_id: u16 },
    /// Keyboard with the key codes 1 to 255.
    Keyboard { name: String, vendor_id: u16, product_id: u16 },
}

/// Model of a `DeviceProfile`.
pub struct ProfileModel {
    pub keyboard: bool,
    pub name: Seq<char>,
    pub vendor_id: u16,
    pub product_id: u16,
}

impl View for DeviceProfile {
    type V = ProfileModel;

    open spec fn view(&self) -> ProfileModel {
        match *self {
            DeviceProfile::Mouse { name, vendor_id, product_id } => ProfileModel {
                keyboard: false,
                name: name@,
                vendor_id,
                product_id,
            },
            DeviceProfile::Keyboard { name, vendor_id, product_id } => ProfileModel {
                keyboard: true,
                name: name@,
                vendor_id,
                product_id,
            },
        }
    }
}

/// Something the kernel has to be told that the device will emit.
#[derive(Clone, Copy, Debug, PartialEq, Eq, Structural)]
pub enum Capability {
    /// An event type.
    Event(u16),
    /// A key or button code.
    Key(u16),
    /// A relative axis.
    Rel(u16),
}

/// What a mouse or a keyboard declares, in order.
pub open spec fn capability_list(keyboard: bool) -> Seq<Capability> {
    if keyboard {
        seq![Capability::Event(EV_KEY), Capability::Event(EV_SYN)] + Seq::new(
            255,
            |i: int| Capability::Key((i + 1) as u16),
        )
    } else {
        seq![
            Capability::Event(EV_KEY),
            Capability::Event(EV_REL),
            Capability::Event(EV_SYN),
            Capability::Key(BTN_LEFT),
            Capability::Key(BTN_RIGHT),
            Capability::Key(BTN_MIDDLE),
            Capability::Key(BTN_SIDE),
            Capability::Key(BTN_EXTRA),
            Capability::Rel(REL_X),
            Capability::Rel(REL_Y),
            Capability::Rel(REL_WHEEL),
            Capability::Rel(REL_HWHEEL),
        ]
    }
}

/// What the kernel has to be told before a device of this profile is created.
pub fn capabilities(profile: &DeviceProfile) -> (v: Vec<Capability>)
    ensures
        v@ == capability_list(profile@.keyboard),
{
    let mut v: Vec<Capability> = Vec::new();
    match profile {
        DeviceProfile::Mouse { .. } => {
            v.push(Capability::Event(EV_KEY));
            v.push(Capability::Event(EV_REL));
            v.push(Capability::Event(EV_SYN));
            v.push(Capability::Key(BTN_LEFT));
            v.push(Capability::Key(BTN_RIGHT));
            v.push(Capability::Key(BTN_MIDDLE));
            v.push(Capability::Key(BTN_SIDE));
            v.push(Capability::Key(BTN_EXTRA));
            v.push(Capability::Rel(REL_X));
            v.push(Capability::Rel(REL_Y));
            v.push(Capability::Rel(REL_WHEEL));
            v.push(Capability::Rel(REL_HWHEEL));
        },
        DeviceProfile::Keyboard { .. } => {
            v.push(Capability::Event(EV_KEY));
            v.push(Capability::Event(EV_SYN));
            let mut k: u16 = 1;
            while k <= 255
                invariant
                    1 <= k <= 256,
                    v@ == seq![Capability::Event(EV_KEY), Capability::Event(EV_SYN)] + Seq::new(
                        (k - 1) as nat,
                        |i: int| Capability::Key((i + 1) as u16),
                    ),
                decreases 256 - k,
            {
                v.push(Capability::Key(k));
                k += 1;
                assert(v@ =~= seq![Capability::Event(EV_KEY), Capability::Event(EV_SYN)]
                    + Seq::new((k - 1) as nat, |i: int| Capability::Key((i + 1) as u16)));
            }
        },
    }
    assert(v@ =~= capability_list(profile@.keyboard));
    v
}

/// The identification block of `UI_DEV_SETUP`.
#[derive(Clone, Copy, Debug)]
pub struct UinputSetup {
    pub bustype: u16,
    pub vendor: u16,
    pub product: u16,
    pub version: u16,
    pub name: [u8; 80],
    pub ff_effects_max: u32,
}

/// The first 79 bytes of a name, with zeros behind.
pub open spec fn name_field(name: Seq<u8>) -> Seq<u8> {
    Seq::new(
        80,
        |i: int|
            if i < name.len() && i < 79 {
                name[i]
            } else {
                0u8
            },
    )
}

/// Whether a block identifies a device of this profile: USB bus, the profile's
/// ids, version 0x0100, and its name cut to fit.
pub open spec fn is_setup_of(s: UinputSetup, profile: ProfileModel) -> bool {
    &&& s.bustype == 0x03
    &&& s.vendor == profile.vendor_id
    &&& s.product == profile.product_id
    &&& s.version == 0x0100
    &&& s.name@ == name_field(vstd::utf8::encode_utf8(profile.name))
    &&& s.ff_effects_max == 0
}

/// The identification block of a device.
pub fn setup_block(profile: &DeviceProfile) -> (s: UinputSetup)
    ensures
        is_setup_of(s, profile@),
        s.bustype == 3 && s.version == 0x0100 && s.ff_effects_max == 0,
        s.vendor == profile@.vendor_id && s.product == profile@.product_id,
        s.name@.len() == 80,
        ({
            let bytes = vstd::utf8::encode_utf8(profile@.name);
            forall|i: int|
                0 <= i < 80 ==> #[trigger] s.name@[i] == if i < 79 && i < bytes.len() {
                    bytes[i]
                } else {
                    0
                }
        }),
{
    let (text, vendor, product) = match profile {
        DeviceProfile::Mouse { name, vendor_id, product_id } => (name, *vendor_id, *product_id),
        DeviceProfile::Keyboard { name, vendor_id, product_id } => (name, *vendor_id, *product_id),
    };
    let bytes = text.as_str().as_bytes();
    let mut name: [u8; 80] = [0u8; 80];
    let mut i: usize = 0;
    while i < bytes.len() && i < 79
        invariant
            i <= 79,
            i <= bytes@.len(),
            name@.len() == 80,
            forall|j: int| 0 <= j < i ==> name@[j] == bytes@[j],
            forall|j: int| i <= j < 80 ==> name@[j] == 0,
        decreases 79 - i,
    {
        name[i] = bytes[i];
        i += 1;
    }
    assert(name@ =~= name_field(bytes@));
    UinputSetup { bustype: 0x03, vendor, product, version: 0x0100, name, ff_effects_max: 0 }
}

/// The name in an identification block always ends in a zero byte, and is the
/// whole name where that has fewer than 80 bytes.
pub proof fn lemma_name_is_terminated(name: Seq<u8>)
    ensures
        name_field(name)[79] == 0,
        name.len() < 80 ==> name_field(name).take(name.len() as int) == name,
{
    if name.len() < 80 {
        assert(name_field(name).take(name.len() as int) =~= name);
    }
}

/// Exactly what each kind of device declares: a mouse its five buttons, two
/// axes and two wheels, a keyboard the key codes 1 to 255; each the event types
/// that go with them.
pub proof fn lemma_declared_exactly(v: u16)
    ensures
        capability_list(false).contains(Capability::Key(v)) <==> 0x110 <= v <= 0x114,
        capability_list(false).contains(Capability::Rel(v)) <==> v == 0 || v == 1 || v == 6 || v
            == 8,
        capability_list(false).contains(Capability::Event(v)) <==> v <= 2,
        capability_list(false).len() == 12,
        capability_list(true).contains(Capability::Key(v)) <==> 1 <= v <= 255,
        !capability_list(true).contains(Capability::Rel(v)),
        capability_list(true).contains(Capability::Event(v)) <==> v <= 1,
        capability_list(true).len() == 257,
{
    let m = capability_list(false);
    assert(m[0] == Capability::Event(1));
    assert(m[1] == Capability::Event(2));
    assert(m[2] == Capability::Event(0));
    if 0x110 <= v <= 0x114 {
        assert(m[3 + (v - 0x110)] == Capability::Key(v));
    }
    assert(m[8] == Capability::Rel(0));
    assert(m[9] == Capability::Rel(1));
    assert(m[10] == Capability::Rel(8));
    assert(m[11] == Capability::Rel(6));
    let k = capability_list(true);
    assert(k[0] == Capability::Event(1));
    assert(k[1] == Capability::Event(0));
    if 1 <= v <= 255 {
        assert(k[v + 1] == Capability::Key(v));
    }
}

} // verus!
