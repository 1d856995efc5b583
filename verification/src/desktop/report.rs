//! Boot-protocol HID reports and the input events they stand for.
//!
//! Only the boot report formats are known:
//!
//! * mouse: `[buttons, dx, dy, wheel (optional)]`
//! * keyboard: `[modifiers, reserved, key0 .. key5]`

use vstd::prelude::*;

use crate::desktop::uinput::{
    axis_events, capability_list, key_events, move_events, sync_event, wheel_events, Capability,
    InputEvent, UinputDevice, EV_KEY, EV_REL, EV_SYN, REL_HWHEEL, REL_WHEEL, REL_X, REL_Y,
};

verus! {

/// What the last reports said is held down.
#[derive(Clone, Copy, Debug)]
pub struct InputState {
    pub buttons: u8,
    pub modifiers: u8,
    pub keys: [u8; 6],
}

impl InputState {
    /// Nothing is held down.
    pub fn new() -> (s: InputState)
        ensures
            s.buttons == 0,
            s.modifiers == 0,
            s.keys@ == seq![0u8, 0, 0, 0, 0, 0],
    {
        let s = InputState { buttons: 0, modifiers: 0, keys: [0, 0, 0, 0, 0, 0] };
        assert(s.keys@ =~= seq![0u8, 0, 0, 0, 0, 0]);
        s
    }
}

/// Bit `i` of a byte.
pub open spec fn bit(b: u8, i: u8) -> bool {
    (b >> i) & 1 == 1
}

fn has_bit(b: u8, i: u8) -> (r: bool)
    requires
        i < 8,
    ensures
        r == bit(b, i),
{
    (b >> i) & 1 == 1
}

/// A byte as a signed number.
pub open spec fn signed(b: u8) -> i32 {
    (if b < 0x80 {
        b as int
    } else {
        b - 0x100
    }) as i32
}

fn to_signed(b: u8) -> (v: i32)
    ensures
        v == signed(b),
{
    if b < 0x80 {
        b as i32
    } else {
        b as i32 - 0x100
    }
}

/// Byte `i` of a report as a signed number, 0 if the report is shorter.
pub open spec fn signed_at(body: Seq<u8>, i: int) -> i32 {
    if i < body.len() {
        signed(body[i])
    } else {
        0
    }
}

fn read_signed(body: &[u8], i: usize) -> (v: i32)
    ensures
        v == signed_at(body@, i as int),
{
    if i < body.len() {
        to_signed(body[i])
    } else {
        0
    }
}

/// The events of those of the first `n` mouse buttons that changed. Buttons
/// are left, right, middle, side and extra.
pub open spec fn button_edges(prev: u8, now: u8, n: nat) -> Seq<InputEvent>
    decreases n,
{
    if n == 0 {
        Seq::empty()
    } else {
        let i = (n - 1) as u8;
        button_edges(prev, now, (n - 1) as nat) + if bit(prev, i) != bit(now, i) {
            key_events((0x110 + i) as u16, bit(now, i))
        } else {
            Seq::empty()
        }
    }
}

/// The key codes of the eight modifier bits: left control, shift, alt, meta,
/// then the right ones.
pub open spec fn modifier_codes() -> Seq<u16> {
    seq![29, 42, 56, 125, 97, 54, 100, 126]
}

/// The events of those of the first `n` modifiers that changed.
pub open spec fn modifier_edges(prev: u8, now: u8, n: nat) -> Seq<InputEvent>
    decreases n,
{
    if n == 0 {
        Seq::empty()
    } else {
        let i = (n - 1) as u8;
        modifier_edges(prev, now, (n - 1) as nat) + if bit(prev, i) != bit(now, i) {
            key_events(modifier_codes()[i as int], bit(now, i))
        } else {
            Seq::empty()
        }
    }
}

/// The codes of the letters A to Z, which follow the rows of the keyboard.
pub open spec fn letter_codes() -> Seq<u16> {
    seq![
        30, 48, 46, 32, 18, 33, 34, 35, 23, 36, 37, 38, 50, 49, 24, 25, 16, 19, 31, 20, 22, 47, 17,
        45, 21, 44,
    ]
}

/// The key code of a letter's usage id.
pub open spec fn letter_code(usage: u8) -> Option<u16> {
    if 0x04 <= usage <= 0x1D {
        Some(letter_codes()[usage - 0x04])
    } else {
        None
    }
}

/// The key code of a usage id of the keyboard page, where one is known.
pub open spec fn linux_key(usage: u8) -> Option<u16> {
    if 0x04 <= usage <= 0x1D {
        letter_code(usage)
    } else if 0x1E <= usage <= 0x27 {
        // 1 to 9, then 0
        Some((usage - 0x1E + 2) as u16)
    } else if usage == 0x28 {
        Some(28u16)
    } else if usage == 0x29 {
        Some(1u16)
    } else if usage == 0x2A {
        Some(14u16)
    } else if usage == 0x2B {
        Some(15u16)
    } else if usage == 0x2C {
        Some(57u16)
    } else if usage == 0x2D {
        Some(12u16)
    } else if usage == 0x2E {
        Some(13u16)
    } else if usage == 0x2F {
        Some(26u16)
    } else if usage == 0x30 {
        Some(27u16)
    } else if usage == 0x31 {
        Some(43u16)
    } else if usage == 0x33 {
        Some(39u16)
    } else if usage == 0x34 {
        Some(40u16)
    } else if usage == 0x35 {
        Some(41u16)
    } else if usage == 0x36 {
        Some(51u16)
    } else if usage == 0x37 {
        Some(52u16)
    } else if usage == 0x38 {
        Some(53u16)
    } else if usage == 0x39 {
        Some(58u16)
    } else if 0x3A <= usage <= 0x43 {
        // F1 to F10
        Some((usage - 0x3A + 59) as u16)
    } else if usage == 0x44 {
        // F11
        Some(87u16)
    } else if usage == 0x45 {
        // F12
        Some(88u16)
    } else if usage == 0x4F {
        Some(106u16)
    } else if usage == 0x50 {
        Some(105u16)
    } else if usage == 0x51 {
        Some(108u16)
    } else if usage == 0x52 {
        Some(103u16)
    } else {
        None
    }
}

/// Letter usage ids to key codes.
pub fn code_for_letter(usage: u8) -> (r: Option<u16>)
    ensures
        r == letter_code(usage),
        r is Some <==> 0x04 <= usage <= 0x1D,
        r is Some ==> r == linux_key(usage),
{
    let map: [u16; 26] = [
        30, 48, 46, 32, 18, 33, 34, 35, 23, 36, 37, 38, 50, 49, 24, 25, 16, 19, 31, 20, 22, 47, 17,
        45, 21, 44,
    ];
    assert(map@ =~= letter_codes());
    if 0x04 <= usage && usage <= 0x1D {
        Some(map[(usage - 0x04) as usize])
    } else {
        None
    }
}

/// HID usage id (keyboard page) to Linux key code. Usages without an entry
/// do not fire.
pub fn hid_usage_to_linux_key(usage: u8) -> (r: Option<u16>)
    ensures
        r == linux_key(usage),
        r is Some <==> 0x04 <= usage <= 0x31 || 0x33 <= usage <= 0x45 || 0x4F <= usage <= 0x52,
{
    if 0x04 <= usage && usage <= 0x1D {
        return code_for_letter(usage);
    }
    if 0x1E <= usage && usage <= 0x27 {
        return Some((usage - 0x1E) as u16 + 2);
    }
    if 0x3A <= usage && usage <= 0x43 {
        return Some((usage - 0x3A) as u16 + 59);
    }
    match usage {
        0x28 => Some(28),  // Enter
        0x29 => Some(1),  // Esc
        0x2A => Some(14),  // Backspace
        0x2B => Some(15),  // Tab
        0x2C => Some(57),  // Space
        0x2D => Some(12),  // -
        0x2E => Some(13),  // =
        0x2F => Some(26),  // [
        0x30 => Some(27),  // ]
        0x31 => Some(43),  // \
        0x33 => Some(39),  // ;
        0x34 => Some(40),  // '
        0x35 => Some(41),  // `
        0x36 => Some(51),  // ,
        0x37 => Some(52),  // .
        0x38 => Some(53),  // /
        0x39 => Some(58),  // CapsLock
        0x44 => Some(87),  // F11
        0x45 => Some(88),  // F12
        0x4F => Some(106),  // Right
        0x50 => Some(105),  // Left
        0x51 => Some(108),  // Down
        0x52 => Some(103),  // Up
        _ => None,
    }
}

/// The events of the keys among the first `n` of `keys` that are not in
/// `others`: known keys go down or up.
pub open spec fn key_changes(keys: Seq<u8>, others: Seq<u8>, pressed: bool, n: nat) -> Seq<
    InputEvent,
>
    decreases n,
{
    if n == 0 {
        Seq::empty()
    } else {
        let k = keys[n - 1];
        key_changes(keys, others, pressed, (n - 1) as nat) + if k == 0 || others.contains(k)
            || linux_key(k) is None {
            Seq::empty()
        } else {
            key_events(linux_key(k)->Some_0, pressed)
        }
    }
}

/// The events of a mouse report: button edges, then motion, then wheel.
pub open spec fn mouse_events(prev: u8, body: Seq<u8>) -> Seq<InputEvent> {
    let dx = signed_at(body, 1);
    let dy = signed_at(body, 2);
    let wheel = signed_at(body, 3);
    button_edges(prev, body[0], 5) + (if dx != 0 || dy != 0 {
        move_events(dx, dy)
    } else {
        Seq::empty()
    }) + (if wheel != 0 {
        wheel_events(wheel, 0)
    } else {
        Seq::empty()
    })
}

/// The events of a keyboard report: modifier edges, then releases, then
/// presses.
pub open spec fn keyboard_events(prev_mod: u8, prev_keys: Seq<u8>, body: Seq<u8>) -> Seq<
    InputEvent,
> {
    let keys = body.subrange(2, 8);
    modifier_edges(prev_mod, body[0], 8) + key_changes(prev_keys, keys, false, 6) + key_changes(
        keys,
        prev_keys,
        true,
        6,
    )
}

/// The events of a report. Eight bytes are a keyboard report, any other
/// non-empty report is a mouse report, an empty one is nothing.
pub open spec fn report_events(s: InputState, body: Seq<u8>) -> Seq<InputEvent> {
    if body.len() == 0 {
        Seq::empty()
    } else if body.len() == 8 {
        keyboard_events(s.modifiers, s.keys@, body)
    } else {
        mouse_events(s.buttons, body)
    }
}

/// Whether `after` is what is held down behind the report.
pub open spec fn state_after(s: InputState, body: Seq<u8>, after: InputState) -> bool {
    if body.len() == 0 {
        after == s
    } else if body.len() == 8 {
        after.buttons == s.buttons && after.modifiers == body[0] && after.keys@ == body.subrange(
            2,
            8,
        )
    } else {
        after.buttons == body[0] && after.modifiers == s.modifiers && after.keys == s.keys
    }
}

fn holds(keys: &[u8; 6], k: u8) -> (r: bool)
    ensures
        r == keys@.contains(k),
{
    let mut i: usize = 0;
    while i < 6
        invariant
            i <= 6,
            forall|j: int| 0 <= j < i ==> keys@[j] != k,
        decreases 6 - i,
    {
        if keys[i] == k {
            return true;
        }
        i += 1;
    }
    false
}

fn apply_key_changes(
    device: &mut UinputDevice,
    keys: &[u8; 6],
    others: &[u8; 6],
    pressed: bool,
)
    ensures
        final(device).emitted(*old(device), key_changes(keys@, others@, pressed, 6)),
{
    let mut i: usize = 0;
    assert(device.pending@ =~= old(device).pending@ + key_changes(keys@, others@, pressed, 0));
    while i < 6
        invariant
            i <= 6,
            device.emitted(*old(device), key_changes(keys@, others@, pressed, i as nat)),
        decreases 6 - i,
    {
        let k: u8 = keys[i];
        if k != 0 && !holds(others, k) {
            if let Some(code) = hid_usage_to_linux_key(k) {
                device.key(code, pressed);
            }
        }
        i += 1;
        assert(device.pending@ =~= old(device).pending@ + key_changes(
            keys@,
            others@,
            pressed,
            i as nat,
        ));
    }
}

/// Applies a mouse report: emits its events and remembers its buttons.
pub fn apply_mouse_report(device: &mut UinputDevice, state: &mut InputState, body: &[u8])
    requires
        body@.len() > 0,
    ensures
        final(device).emitted(*old(device), mouse_events(old(state).buttons, body@)),
        final(state).buttons == body@[0],
        final(state).modifiers == old(state).modifiers,
        final(state).keys == old(state).keys,
        rel_sum(final(device).pending@, 0x00) == rel_sum(old(device).pending@, 0x00)
            + twos_complement(body@, 1),
        rel_sum(final(device).pending@, 0x01) == rel_sum(old(device).pending@, 0x01)
            + twos_complement(body@, 2),
        rel_sum(final(device).pending@, 0x08) == rel_sum(old(device).pending@, 0x08)
            + twos_complement(body@, 3),
{
    let buttons: u8 = body[0];
    let prev: u8 = state.buttons;
    let dx: i32 = read_signed(body, 1);
    let dy: i32 = read_signed(body, 2);
    let wheel: i32 = read_signed(body, 3);
    let mut i: u8 = 0;
    assert(device.pending@ =~= old(device).pending@ + button_edges(prev, buttons, 0));
    while i < 5
        invariant
            i <= 5,
            device.emitted(*old(device), button_edges(prev, buttons, i as nat)),
        decreases 5 - i,
    {
        let down = has_bit(buttons, i);
        if has_bit(prev, i) != down {
            device.mouse_button(0x110 + i as u16, down);
        }
        i += 1;
        assert(device.pending@ =~= old(device).pending@ + button_edges(prev, buttons, i as nat));
    }
    state.buttons = buttons;
    if dx != 0 || dy != 0 {
        device.mouse_move(dx, dy);
    }
    if wheel != 0 {
        device.mouse_wheel(wheel, 0);
    }
    assert(device.pending@ =~= old(device).pending@ + mouse_events(prev, body@));
    proof {
        lemma_mouse_moves_each_axis(prev, body@);
        lemma_rel_sum_concat(old(device).pending@, mouse_events(prev, body@), 0x00);
        lemma_rel_sum_concat(old(device).pending@, mouse_events(prev, body@), 0x01);
        lemma_rel_sum_concat(old(device).pending@, mouse_events(prev, body@), 0x08);
    }
}

/// Applies a keyboard report: emits its events and remembers its keys.
pub fn apply_keyboard_report(device: &mut UinputDevice, state: &mut InputState, body: &[u8])
    requires
        body@.len() == 8,
    ensures
        final(device).emitted(
            *old(device),
            keyboard_events(old(state).modifiers, old(state).keys@, body@),
        ),
        final(state).buttons == old(state).buttons,
        final(state).modifiers == body@[0],
        final(state).keys@ == body@.subrange(2, 8),
{
    let codes: [u16; 8] = [29, 42, 56, 125, 97, 54, 100, 126];
    assert(codes@ =~= modifier_codes());
    let modifier: u8 = body[0];
    let keys: [u8; 6] = [body[2], body[3], body[4], body[5], body[6], body[7]];
    assert(keys@ =~= body@.subrange(2, 8));
    let prev_mod: u8 = state.modifiers;
    let prev_keys: [u8; 6] = state.keys;
    let mut i: u8 = 0;
    assert(device.pending@ =~= old(device).pending@ + modifier_edges(prev_mod, modifier, 0));
    while i < 8
        invariant
            i <= 8,
            codes@ == modifier_codes(),
            device.emitted(*old(device), modifier_edges(prev_mod, modifier, i as nat)),
        decreases 8 - i,
    {
        let down = has_bit(modifier, i);
        if has_bit(prev_mod, i) != down {
            device.key(codes[i as usize], down);
        }
        i += 1;
        assert(device.pending@ =~= old(device).pending@ + modifier_edges(
            prev_mod,
            modifier,
            i as nat,
        ));
    }
    apply_key_changes(device, &prev_keys, &keys, false);
    apply_key_changes(device, &keys, &prev_keys, true);
    state.modifiers = modifier;
    state.keys = keys;
    assert(device.pending@ =~= old(device).pending@ + keyboard_events(
        prev_mod,
        prev_keys@,
        body@,
    ));
}

/// Decodes one HID input report and emits the events it stands for.
pub fn apply_report(device: &mut UinputDevice, state: &mut InputState, body: &[u8])
    ensures
        final(device).emitted(*old(device), report_events(*old(state), body@)),
        state_after(*old(state), body@, *final(state)),
        body@.len() == 8 ==> final(state).modifiers == body@[0] && final(state).keys@
            == body@.subrange(2, 8) && final(state).buttons == old(state).buttons,
        0 < body@.len() && body@.len() != 8 ==> final(state).buttons == body@[0]
            && final(state).modifiers == old(state).modifiers && final(state).keys
            == old(state).keys,
        body@.len() == 0 ==> *final(state) == *old(state) && final(device).pending@
            == old(device).pending@,
{
    if body.len() == 0 {
        assert(device.pending@ =~= old(device).pending@ + report_events(*state, body@));
        return;
    }
    if body.len() == 8 {
        apply_keyboard_report(device, state, body);
    } else {
        apply_mouse_report(device, state, body);
    }
}

/// Buttons that did not change fire nothing.
proof fn lemma_no_button_edges(b: u8, n: nat)
    ensures
        button_edges(b, b, n) == Seq::<InputEvent>::empty(),
    decreases n,
{
    if n > 0 {
        lemma_no_button_edges(b, (n - 1) as nat);
    }
}

proof fn lemma_no_modifier_edges(b: u8, n: nat)
    ensures
        modifier_edges(b, b, n) == Seq::<InputEvent>::empty(),
    decreases n,
{
    if n > 0 {
        lemma_no_modifier_edges(b, (n - 1) as nat);
    }
}

proof fn lemma_no_key_changes(keys: Seq<u8>, pressed: bool, n: nat)
    requires
        n <= keys.len(),
    ensures
        key_changes(keys, keys, pressed, n) == Seq::<InputEvent>::empty(),
    decreases n,
{
    if n > 0 {
        lemma_no_key_changes(keys, pressed, (n - 1) as nat);
        assert(keys.contains(keys[n - 1]));
    }
}

/// A repeated keyboard report fires nothing: only changes do.
pub proof fn lemma_repeated_keyboard_report(s: InputState, body: Seq<u8>, after: InputState)
    requires
        body.len() == 8,
        state_after(s, body, after),
    ensures
        report_events(after, body) == Seq::<InputEvent>::empty(),
{
    lemma_no_modifier_edges(body[0], 8);
    lemma_no_key_changes(body.subrange(2, 8), false, 6);
    lemma_no_key_changes(body.subrange(2, 8), true, 6);
    assert(report_events(after, body) =~= Seq::<InputEvent>::empty());
}

/// A repeated mouse report fires no button event: what is left is its motion.
pub proof fn lemma_repeated_mouse_report(s: InputState, body: Seq<u8>, after: InputState)
    requires
        body.len() > 0,
        body.len() != 8,
        state_after(s, body, after),
    ensures
        report_events(after, body) == mouse_events(body[0], body),
        button_edges(body[0], body[0], 5) == Seq::<InputEvent>::empty(),
        signed_at(body, 1) == 0 && signed_at(body, 2) == 0 && signed_at(body, 3) == 0
            ==> report_events(after, body) == Seq::<InputEvent>::empty(),
{
    lemma_no_button_edges(body[0], 5);
    if signed_at(body, 1) == 0 && signed_at(body, 2) == 0 && signed_at(body, 3) == 0 {
        assert(report_events(after, body) =~= Seq::<InputEvent>::empty());
    }
}

/// Different usages never share a key code.
pub proof fn lemma_linux_key_injective(a: u8, b: u8)
    requires
        linux_key(a) is Some,
        linux_key(a) == linux_key(b),
    ensures
        a == b,
{
    lemma_letter_codes_distinct();
}

/// The letters have distinct codes, all between 16 and 50 and none of those of
/// the keys around them.
pub proof fn lemma_letter_codes_distinct()
    ensures
        forall|i: int, j: int|
            0 <= i < 26 && 0 <= j < 26 && letter_codes()[i] == letter_codes()[j] ==> i == j,
        forall|i: int|
            0 <= i < 26 ==> 16 <= #[trigger] letter_codes()[i] <= 25 || 30 <= letter_codes()[i]
                <= 38 || 44 <= letter_codes()[i] <= 50,
{
}

/// Whether an event is one that a device declared.
pub open spec fn declared(caps: Seq<Capability>, e: InputEvent) -> bool {
    &&& caps.contains(Capability::Event(e.type_))
    &&& e.type_ == EV_KEY ==> caps.contains(Capability::Key(e.code))
    &&& e.type_ == EV_REL ==> caps.contains(Capability::Rel(e.code))
}

/// Whether all events are ones that a device declared.
pub open spec fn all_declared(caps: Seq<Capability>, events: Seq<InputEvent>) -> bool {
    forall|i: int| 0 <= i < events.len() ==> declared(caps, #[trigger] events[i])
}

proof fn lemma_keyboard_declares(code: u16)
    requires
        1 <= code <= 255,
    ensures
        capability_list(true).contains(Capability::Key(code)),
        capability_list(true).contains(Capability::Event(EV_KEY)),
        capability_list(true).contains(Capability::Event(EV_SYN)),
{
    let caps = capability_list(true);
    assert(caps[code + 1] == Capability::Key(code));
    assert(caps[0] == Capability::Event(EV_KEY));
    assert(caps[1] == Capability::Event(EV_SYN));
}

proof fn lemma_mouse_declares()
    ensures
        forall|code: u16|
            0x110 <= code <= 0x114 ==> #[trigger] capability_list(false).contains(
                Capability::Key(code),
            ),
        capability_list(false).contains(Capability::Event(EV_KEY)),
        capability_list(false).contains(Capability::Event(EV_REL)),
        capability_list(false).contains(Capability::Event(EV_SYN)),
        capability_list(false).contains(Capability::Rel(REL_X)),
        capability_list(false).contains(Capability::Rel(REL_Y)),
        capability_list(false).contains(Capability::Rel(REL_WHEEL)),
{
    let caps = capability_list(false);
    assert(caps[0] == Capability::Event(EV_KEY));
    assert(caps[1] == Capability::Event(EV_REL));
    assert(caps[2] == Capability::Event(EV_SYN));
    assert(caps[8] == Capability::Rel(REL_X));
    assert(caps[9] == Capability::Rel(REL_Y));
    assert(caps[10] == Capability::Rel(REL_WHEEL));
    assert forall|code: u16| 0x110 <= code <= 0x114 implies #[trigger] caps.contains(
        Capability::Key(code),
    ) by {
        assert(caps[3 + (code - 0x110)] == Capability::Key(code));
    }
}

proof fn lemma_button_edges_declared(prev: u8, now: u8, n: nat)
    requires
        n <= 5,
    ensures
        all_declared(capability_list(false), button_edges(prev, now, n)),
    decreases n,
{
    lemma_mouse_declares();
    if n > 0 {
        lemma_button_edges_declared(prev, now, (n - 1) as nat);
    }
}

/// A mouse report only ever fires events that a mouse has declared.
pub proof fn lemma_mouse_events_declared(prev: u8, body: Seq<u8>)
    ensures
        all_declared(capability_list(false), mouse_events(prev, body)),
{
    lemma_mouse_declares();
    lemma_button_edges_declared(prev, body[0], 5);
}

proof fn lemma_modifier_edges_declared(prev: u8, now: u8, n: nat)
    requires
        n <= 8,
    ensures
        all_declared(capability_list(true), modifier_edges(prev, now, n)),
    decreases n,
{
    if n > 0 {
        lemma_modifier_edges_declared(prev, now, (n - 1) as nat);
        lemma_keyboard_declares(modifier_codes()[n - 1]);
    }
}

proof fn lemma_key_changes_declared(keys: Seq<u8>, others: Seq<u8>, pressed: bool, n: nat)
    ensures
        all_declared(capability_list(true), key_changes(keys, others, pressed, n)),
    decreases n,
{
    if n > 0 {
        lemma_key_changes_declared(keys, others, pressed, (n - 1) as nat);
        lemma_letter_codes_distinct();
        if linux_key(keys[n - 1]) is Some {
            lemma_keyboard_declares(linux_key(keys[n - 1])->Some_0);
        }
    }
}

/// A keyboard report only ever fires events that a keyboard has declared.
pub proof fn lemma_keyboard_events_declared(prev_mod: u8, prev_keys: Seq<u8>, body: Seq<u8>)
    ensures
        all_declared(capability_list(true), keyboard_events(prev_mod, prev_keys, body)),
{
    let keys = body.subrange(2, 8);
    lemma_modifier_edges_declared(prev_mod, body[0], 8);
    lemma_key_changes_declared(prev_keys, keys, false, 6);
    lemma_key_changes_declared(keys, prev_keys, true, 6);
}

/// Byte `i` of a report read as a two's complement number, 0 where the report
/// is shorter.
pub open spec fn twos_complement(body: Seq<u8>, i: int) -> int {
    if i >= body.len() {
        0
    } else if body[i] < 128 {
        body[i] as int
    } else {
        body[i] - 256
    }
}

/// How far some events move a relative axis: the sum of its values.
pub open spec fn rel_sum(events: Seq<InputEvent>, code: u16) -> int
    decreases events.len(),
{
    if events.len() == 0 {
        0
    } else {
        let e = events.last();
        rel_sum(events.drop_last(), code) + if e.type_ == 0x02 && e.code == code {
            e.value as int
        } else {
            0
        }
    }
}

/// Events one after another move an axis by the sum of what each part does.
pub proof fn lemma_rel_sum_concat(a: Seq<InputEvent>, b: Seq<InputEvent>, code: u16)
    ensures
        rel_sum(a + b, code) == rel_sum(a, code) + rel_sum(b, code),
    decreases b.len(),
{
    if b.len() == 0 {
        assert(a + b =~= a);
    } else {
        assert((a + b).drop_last() =~= a + b.drop_last());
        assert((a + b).last() == b.last());
        lemma_rel_sum_concat(a, b.drop_last(), code);
    }
}

/// Events that do not concern an axis do not move it.
proof fn lemma_rel_sum_none(events: Seq<InputEvent>, code: u16)
    requires
        forall|i: int|
            0 <= i < events.len() ==> (#[trigger] events[i]).type_ != 0x02 || events[i].code
                != code,
    ensures
        rel_sum(events, code) == 0,
    decreases events.len(),
{
    if events.len() > 0 {
        let head = events.drop_last();
        assert forall|i: int| 0 <= i < head.len() implies (#[trigger] head[i]).type_ != 0x02
            || head[i].code != code by {
            assert(head[i] == events[i]);
        }
        lemma_rel_sum_none(head, code);
    }
}

/// One event moves its own axis alone.
proof fn lemma_rel_sum_axis(axis: u16, value: i32, code: u16)
    ensures
        rel_sum(axis_events(axis, value), code) == if axis == code {
            value as int
        } else {
            0
        },
{
    let e = axis_events(axis, value);
    if value != 0 {
        assert(e.drop_last() =~= Seq::<InputEvent>::empty());
        assert(rel_sum(e.drop_last(), code) == 0);
    }
}

/// A pair of axes and the end of the packet.
proof fn lemma_rel_sum_pair(a: u16, av: i32, b: u16, bv: i32, code: u16)
    requires
        a != b,
    ensures
        rel_sum(axis_events(a, av) + axis_events(b, bv) + seq![sync_event()], code) == if a == code {
            av as int
        } else if b == code {
            bv as int
        } else {
            0
        },
{
    lemma_rel_sum_concat(
        axis_events(a, av) + axis_events(b, bv),
        seq![sync_event()],
        code,
    );
    lemma_rel_sum_concat(axis_events(a, av), axis_events(b, bv), code);
    lemma_rel_sum_axis(a, av, code);
    lemma_rel_sum_axis(b, bv, code);
    lemma_rel_sum_none(seq![sync_event()], code);
}

/// Button edges are key events and ends of packets.
proof fn lemma_button_edges_do_not_move(prev: u8, now: u8, n: nat)
    ensures
        forall|i: int|
            0 <= i < button_edges(prev, now, n).len() ==> (#[trigger] button_edges(
                prev,
                now,
                n,
            )[i]).type_ != 0x02,
    decreases n,
{
    if n > 0 {
        lemma_button_edges_do_not_move(prev, now, (n - 1) as nat);
        let head = button_edges(prev, now, (n - 1) as nat);
        let all = button_edges(prev, now, n);
        assert forall|i: int| 0 <= i < all.len() implies (#[trigger] all[i]).type_ != 0x02 by {
            if i < head.len() {
                assert(all[i] == head[i]);
            }
        }
    }
}

/// A mouse report moves each axis by exactly what it says, up or down, left or
/// right: X by its second byte, Y by its third and the wheel by its fourth,
/// each in two's complement. No other axis moves.
pub proof fn lemma_mouse_moves_each_axis(prev: u8, body: Seq<u8>)
    ensures
        rel_sum(mouse_events(prev, body), 0x00) == twos_complement(body, 1),
        rel_sum(mouse_events(prev, body), 0x01) == twos_complement(body, 2),
        rel_sum(mouse_events(prev, body), 0x08) == twos_complement(body, 3),
        forall|code: u16|
            code != 0x00 && code != 0x01 && code != 0x08 ==> #[trigger] rel_sum(
                mouse_events(prev, body),
                code,
            ) == 0,
{
    assert forall|code: u16| #[trigger] rel_sum(mouse_events(prev, body), code) == if code == 0x00 {
        twos_complement(body, 1)
    } else if code == 0x01 {
        twos_complement(body, 2)
    } else if code == 0x08 {
        twos_complement(body, 3)
    } else {
        0
    } by {
        let dx = signed_at(body, 1);
        let dy = signed_at(body, 2);
        let wheel = signed_at(body, 3);
        let edges = button_edges(prev, body[0], 5);
        let motion = if dx != 0 || dy != 0 {
            move_events(dx, dy)
        } else {
            Seq::empty()
        };
        let scroll = if wheel != 0 {
            wheel_events(wheel, 0)
        } else {
            Seq::empty()
        };
        lemma_button_edges_do_not_move(prev, body[0], 5);
        lemma_rel_sum_none(edges, code);
        lemma_rel_sum_none(Seq::empty(), code);
        lemma_rel_sum_pair(REL_X, dx, REL_Y, dy, code);
        lemma_rel_sum_pair(REL_WHEEL, wheel, REL_HWHEEL, 0, code);
        lemma_rel_sum_concat(edges + motion, scroll, code);
        lemma_rel_sum_concat(edges, motion, code);
    }
}

/// A keyboard report moves nothing.
pub proof fn lemma_keyboard_moves_nothing(
    prev_mod: u8,
    prev_keys: Seq<u8>,
    body: Seq<u8>,
    code: u16,
)
    ensures
        rel_sum(keyboard_events(prev_mod, prev_keys, body), code) == 0,
{
    let events = keyboard_events(prev_mod, prev_keys, body);
    lemma_keyboard_events_declared(prev_mod, prev_keys, body);
    assert forall|i: int| 0 <= i < events.len() implies (#[trigger] events[i]).type_ != 0x02
        || events[i].code != code by {
        assert(declared(capability_list(true), events[i]));
        if events[i].type_ == 0x02 {
            let caps = capability_list(true);
            let k = choose|k: int| 0 <= k < caps.len() && caps[k] == Capability::Event(0x02);
            assert(caps[k] == Capability::Event(0x02));
        }
    }
    lemma_rel_sum_none(events, code);
}

/// The parts of a mouse report's events come in order: buttons before motion,
/// motion before the wheel.
pub proof fn lemma_mouse_events_in_order(prev: u8, body: Seq<u8>, i: int, j: int)
    requires
        0 <= i < j < mouse_events(prev, body).len(),
        mouse_events(prev, body)[i].type_ == 0x02,
    ensures
        mouse_events(prev, body)[j].type_ != 0x01,
        mouse_events(prev, body)[i].code == 0x08 ==> mouse_events(prev, body)[j].type_ != 0x02,
        mouse_events(prev, body)[i].code == 0x01 && mouse_events(prev, body)[j].type_ == 0x02
            ==> mouse_events(prev, body)[j].code == 0x08,
{
    lemma_button_edges_do_not_move(prev, body[0], 5);
    let edges = button_edges(prev, body[0], 5);
    if i < edges.len() {
        assert(mouse_events(prev, body)[i] == edges[i]);
    }
}

/// Bit `i` of a byte is its digit of weight two to the `i`.
pub proof fn lemma_bits_by_weight(b: u8)
    ensures
        bit(b, 0) <==> b % 2 == 1,
        bit(b, 1) <==> b / 2 % 2 == 1,
        bit(b, 2) <==> b / 4 % 2 == 1,
        bit(b, 3) <==> b / 8 % 2 == 1,
        bit(b, 4) <==> b / 16 % 2 == 1,
        bit(b, 5) <==> b / 32 % 2 == 1,
        bit(b, 6) <==> b / 64 % 2 == 1,
        bit(b, 7) <==> b / 128 % 2 == 1,
{
    assert(((b >> 0) & 1 == 1 <==> b % 2 == 1) && ((b >> 1) & 1 == 1 <==> b / 2 % 2 == 1) && ((b
        >> 2) & 1 == 1 <==> b / 4 % 2 == 1) && ((b >> 3) & 1 == 1 <==> b / 8 % 2 == 1) && ((b >> 4)
        & 1 == 1 <==> b / 16 % 2 == 1) && ((b >> 5) & 1 == 1 <==> b / 32 % 2 == 1) && ((b >> 6) & 1
        == 1 <==> b / 64 % 2 == 1) && ((b >> 7) & 1 == 1 <==> b / 128 % 2 == 1)) by (bit_vector);
}

/// The modifier bits stand for control, shift, alt and meta, on the left and
/// then on the right.
pub proof fn lemma_modifier_keys()
    ensures
        modifier_codes().len() == 8,
        modifier_codes()[0] == 29 && modifier_codes()[4] == 97,
        modifier_codes()[1] == 42 && modifier_codes()[5] == 54,
        modifier_codes()[2] == 56 && modifier_codes()[6] == 100,
        modifier_codes()[3] == 125 && modifier_codes()[7] == 126,
{
}

/// The letters of a row of the keyboard.
pub open spec fn letter_row(n: int) -> Seq<char> {
    if n == 0 {
        seq!['q', 'w', 'e', 'r', 't', 'y', 'u', 'i', 'o', 'p']
    } else if n == 1 {
        seq!['a', 's', 'd', 'f', 'g', 'h', 'j', 'k', 'l']
    } else {
        seq!['z', 'x', 'c', 'v', 'b', 'n', 'm']
    }
}

/// A letter's usage id says which letter of the alphabet it is, its key code
/// where it stands on the keyboard: the codes count along the rows, from 16,
/// 30 and 44 on.
pub proof fn lemma_letters_stand_in_rows(i: int)
    ensures
        0 <= i < 10 ==> linux_key((0x04 + (letter_row(0)[i] as int - 'a' as int)) as u8) == Some(
            (16 + i) as u16,
        ),
        0 <= i < 9 ==> linux_key((0x04 + (letter_row(1)[i] as int - 'a' as int)) as u8) == Some((30 + i) as u16),
        0 <= i < 7 ==> linux_key((0x04 + (letter_row(2)[i] as int - 'a' as int)) as u8) == Some((44 + i) as u16),
{
}

/// The usages that are no letter, by key code: the digits count from 2 on, the
/// function keys from 59 on but for the last two; all others are single keys.
/// A usage that is not named here or a letter stands for no key.
pub proof fn lemma_other_keys(usage: u8)
    ensures
        0x1E <= usage <= 0x27 ==> linux_key(usage) == Some((usage - 28) as u16),
        0x3A <= usage <= 0x43 ==> linux_key(usage) == Some((usage + 1) as u16),
        0x44 <= usage <= 0x45 ==> linux_key(usage) == Some((usage + 19) as u16),
        linux_key(usage) == Some(28u16) <==> usage == 0x28,
        linux_key(usage) == Some(1u16) <==> usage == 0x29,
        linux_key(usage) == Some(14u16) <==> usage == 0x2A,
        linux_key(usage) == Some(15u16) <==> usage == 0x2B,
        linux_key(usage) == Some(57u16) <==> usage == 0x2C,
        linux_key(usage) == Some(12u16) <==> usage == 0x2D,
        linux_key(usage) == Some(13u16) <==> usage == 0x2E,
        linux_key(usage) == Some(26u16) <==> usage == 0x2F,
        linux_key(usage) == Some(27u16) <==> usage == 0x30,
        linux_key(usage) == Some(43u16) <==> usage == 0x31,
        linux_key(usage) == Some(39u16) <==> usage == 0x33,
        linux_key(usage) == Some(40u16) <==> usage == 0x34,
        linux_key(usage) == Some(41u16) <==> usage == 0x35,
        linux_key(usage) == Some(51u16) <==> usage == 0x36,
        linux_key(usage) == Some(52u16) <==> usage == 0x37,
        linux_key(usage) == Some(53u16) <==> usage == 0x38,
        linux_key(usage) == Some(58u16) <==> usage == 0x39,
        linux_key(usage) == Some(106u16) <==> usage == 0x4F,
        linux_key(usage) == Some(105u16) <==> usage == 0x50,
        linux_key(usage) == Some(108u16) <==> usage == 0x51,
        linux_key(usage) == Some(103u16) <==> usage == 0x52,
        linux_key(usage) is None <==> usage < 0x04 || usage == 0x32 || 0x46 <= usage <= 0x4E || usage
            > 0x52,
{
    lemma_letter_codes_distinct();
}

/// Which format a report is read in: eight bytes are a keyboard's, any other
/// number but none a mouse's.
pub proof fn lemma_report_format(s: InputState, body: Seq<u8>)
    ensures
        body.len() == 0 ==> report_events(s, body).len() == 0,
        body.len() == 8 ==> report_events(s, body) == keyboard_events(s.modifiers, s.keys@, body),
        body.len() != 0 && body.len() != 8 ==> report_events(s, body) == mouse_events(
            s.buttons,
            body,
        ),
{
}

/// The press or release of a key, as it stands among the events of a report.
pub open spec fn key_event(code: u16, value: i32) -> InputEvent {
    InputEvent { type_: 0x01, code, value }
}

/// The events of a list, put together from two.
proof fn lemma_contains_concat(a: Seq<InputEvent>, b: Seq<InputEvent>, e: InputEvent)
    ensures
        (a + b).contains(e) <==> a.contains(e) || b.contains(e),
{
    if a.contains(e) {
        let i = choose|i: int| 0 <= i < a.len() && a[i] == e;
        assert((a + b)[i] == e);
    }
    if b.contains(e) {
        let i = choose|i: int| 0 <= i < b.len() && b[i] == e;
        assert((a + b)[a.len() + i] == e);
    }
    if (a + b).contains(e) {
        let i = choose|i: int| 0 <= i < (a + b).len() && (a + b)[i] == e;
        if i < a.len() {
            assert(a[i] == e);
        } else {
            assert(b[i - a.len()] == e);
        }
    }
}

proof fn lemma_contains_key(code: u16, pressed: bool, e: InputEvent)
    requires
        e.type_ == 0x01,
    ensures
        key_events(code, pressed).contains(e) <==> e.code == code && e.value == if pressed {
            1int
        } else {
            0
        },
{
    let k = key_events(code, pressed);
    assert(k[0].type_ == 0x01 && k[0].code == code);
    assert(k[1].type_ == 0x00);
    if e.code == code && e.value == (if pressed {
        1int
    } else {
        0
    }) {
        assert(k[0] == e);
    }
}

proof fn lemma_button_edges_hold(prev: u8, now: u8, n: nat, i: u8, value: i32)
    requires
        n <= 5,
        i < 5,
        value == 0 || value == 1,
    ensures
        button_edges(prev, now, n).contains(key_event((0x110 + i) as u16, value)) <==> i < n && bit(
            prev,
            i,
        ) != bit(now, i) && (bit(now, i) <==> value == 1),
    decreases n,
{
    let e = key_event((0x110 + i) as u16, value);
    if n > 0 {
        let k = (n - 1) as u8;
        lemma_button_edges_hold(prev, now, (n - 1) as nat, i, value);
        let edge = if bit(prev, k) != bit(now, k) {
            key_events((0x110 + k) as u16, bit(now, k))
        } else {
            Seq::empty()
        };
        lemma_contains_concat(button_edges(prev, now, (n - 1) as nat), edge, e);
        lemma_contains_key((0x110 + k) as u16, bit(now, k), e);
    }
}

/// A mouse report presses just the buttons that it newly holds and releases just
/// those that it no longer holds: left, right, middle, side and extra by its
/// five low bits.
pub proof fn lemma_buttons_pressed_and_released(prev: u8, body: Seq<u8>, i: u8)
    requires
        body.len() > 0,
        i < 5,
    ensures
        mouse_events(prev, body).contains(key_event((0x110 + i) as u16, 1)) <==> !bit(prev, i) && bit(
            body[0],
            i,
        ),
        mouse_events(prev, body).contains(key_event((0x110 + i) as u16, 0)) <==> bit(prev, i)
            && !bit(body[0], i),
{
    let dx = signed_at(body, 1);
    let dy = signed_at(body, 2);
    let wheel = signed_at(body, 3);
    let edges = button_edges(prev, body[0], 5);
    let motion = if dx != 0 || dy != 0 {
        move_events(dx, dy)
    } else {
        Seq::empty()
    };
    let scroll = if wheel != 0 {
        wheel_events(wheel, 0)
    } else {
        Seq::empty()
    };
    let down = key_event((0x110 + i) as u16, 1);
    let up = key_event((0x110 + i) as u16, 0);
    lemma_button_edges_hold(prev, body[0], 5, i, 1);
    lemma_button_edges_hold(prev, body[0], 5, i, 0);
    lemma_contains_concat(edges + motion, scroll, down);
    lemma_contains_concat(edges, motion, down);
    lemma_contains_concat(edges + motion, scroll, up);
    lemma_contains_concat(edges, motion, up);
    lemma_no_keys_in(motion, down);
    lemma_no_keys_in(motion, up);
    lemma_no_keys_in(scroll, down);
    lemma_no_keys_in(scroll, up);
}

/// Events that are no key events hold no key event.
proof fn lemma_no_keys_in(events: Seq<InputEvent>, e: InputEvent)
    requires
        forall|i: int| 0 <= i < events.len() ==> (#[trigger] events[i]).type_ != 0x01,
        e.type_ == 0x01,
    ensures
        !events.contains(e),
{
    if events.contains(e) {
        let i = choose|i: int| 0 <= i < events.len() && events[i] == e;
        assert(events[i].type_ != 0x01);
    }
}

proof fn lemma_modifier_edges_hold(prev: u8, now: u8, n: nat, code: u16, value: i32)
    requires
        n <= 8,
        value == 0 || value == 1,
    ensures
        modifier_edges(prev, now, n).contains(key_event(code, value)) <==> exists|i: int|
            0 <= i < n && #[trigger] modifier_codes()[i] == code && bit(prev, i as u8) != bit(
                now,
                i as u8,
            ) && (bit(now, i as u8) <==> value == 1),
    decreases n,
{
    let e = key_event(code, value);
    if n > 0 {
        let k = (n - 1) as u8;
        lemma_modifier_edges_hold(prev, now, (n - 1) as nat, code, value);
        let edge = if bit(prev, k) != bit(now, k) {
            key_events(modifier_codes()[k as int], bit(now, k))
        } else {
            Seq::empty()
        };
        lemma_contains_concat(modifier_edges(prev, now, (n - 1) as nat), edge, e);
        lemma_contains_key(modifier_codes()[k as int], bit(now, k), e);
        assert(modifier_codes()[n - 1] == modifier_codes()[k as int]);
    }
}

proof fn lemma_key_changes_hold(
    keys: Seq<u8>,
    others: Seq<u8>,
    pressed: bool,
    n: nat,
    code: u16,
    value: i32,
)
    requires
        n <= keys.len(),
        value == 0 || value == 1,
    ensures
        key_changes(keys, others, pressed, n).contains(key_event(code, value)) <==> (pressed <==> value
            == 1) && exists|j: int|
            0 <= j < n && #[trigger] keys[j] != 0 && !others.contains(keys[j]) && linux_key(keys[j])
                == Some(code),
    decreases n,
{
    let e = key_event(code, value);
    if n > 0 {
        let k = keys[n - 1];
        lemma_key_changes_hold(keys, others, pressed, (n - 1) as nat, code, value);
        let change = if k == 0 || others.contains(k) || linux_key(k) is None {
            Seq::empty()
        } else {
            key_events(linux_key(k)->Some_0, pressed)
        };
        lemma_contains_concat(key_changes(keys, others, pressed, (n - 1) as nat), change, e);
        if linux_key(k) is Some {
            lemma_contains_key(linux_key(k)->Some_0, pressed, e);
        }
    }
}

/// A keyboard report presses just the keys that stand in one of its six places
/// and did not in the report before, and releases just those that did and no
/// longer do.
pub proof fn lemma_keys_pressed_and_released(
    prev_mod: u8,
    prev_keys: Seq<u8>,
    body: Seq<u8>,
    usage: u8,
    code: u16,
)
    requires
        prev_keys.len() == 6,
        body.len() == 8,
        linux_key(usage) == Some(code),
    ensures
        ({
            let now = exists|i: int| 2 <= i < 8 && #[trigger] body[i] == usage;
            let before = exists|j: int| 0 <= j < 6 && #[trigger] prev_keys[j] == usage;
            let events = keyboard_events(prev_mod, prev_keys, body);
            &&& events.contains(key_event(code, 1)) <==> now && !before
            &&& events.contains(key_event(code, 0)) <==> before && !now
        }),
{
    let keys = body.subrange(2, 8);
    let m = modifier_edges(prev_mod, body[0], 8);
    let r = key_changes(prev_keys, keys, false, 6);
    let p = key_changes(keys, prev_keys, true, 6);
    lemma_letter_codes_distinct();
    assert forall|i: int| 0 <= i < 8 implies #[trigger] modifier_codes()[i] != code by {}
    assert(linux_key(0) is None);
    assert forall|k: u8| linux_key(k) == Some(code) implies k == usage by {
        lemma_linux_key_injective(usage, k);
    }
    let now = exists|i: int| 2 <= i < 8 && #[trigger] body[i] == usage;
    let before = exists|j: int| 0 <= j < 6 && #[trigger] prev_keys[j] == usage;
    assert(keys.contains(usage) == now) by {
        if now {
            let i = choose|i: int| 2 <= i < 8 && #[trigger] body[i] == usage;
            assert(keys[i - 2] == usage);
        }
        if keys.contains(usage) {
            let i = choose|i: int| 0 <= i < keys.len() && keys[i] == usage;
            assert(body[i + 2] == usage);
        }
    }
    assert(prev_keys.contains(usage) == before);
    assert forall|value: i32| value == 0 || value == 1 implies #[trigger] keyboard_events(
        prev_mod,
        prev_keys,
        body,
    ).contains(key_event(code, value)) == (if value == 1 {
        now && !before
    } else {
        before && !now
    }) by {
        let e = key_event(code, value);
        lemma_contains_concat(m + r, p, e);
        lemma_contains_concat(m, r, e);
        lemma_modifier_edges_hold(prev_mod, body[0], 8, code, value);
        lemma_key_changes_hold(prev_keys, keys, false, 6, code, value);
        lemma_key_changes_hold(keys, prev_keys, true, 6, code, value);
        if value == 1 && now && !before {
            let i = choose|i: int| 0 <= i < keys.len() && keys[i] == usage;
            assert(keys[i] != 0 && !prev_keys.contains(keys[i]));
        }
        if value == 0 && before && !now {
            let i = choose|i: int| 0 <= i < prev_keys.len() && prev_keys[i] == usage;
            assert(prev_keys[i] != 0 && !keys.contains(prev_keys[i]));
        }
    }
    assert(keyboard_events(prev_mod, prev_keys, body).contains(key_event(code, 1)) == (now
        && !before));
    assert(keyboard_events(prev_mod, prev_keys, body).contains(key_event(code, 0)) == (before
        && !now));
}

/// A keyboard report presses just the modifiers whose bits it newly has and
/// releases just those whose bits it no longer has.
pub proof fn lemma_modifiers_pressed_and_released(
    prev_mod: u8,
    prev_keys: Seq<u8>,
    body: Seq<u8>,
    i: u8,
)
    requires
        prev_keys.len() == 6,
        body.len() == 8,
        i < 8,
    ensures
        ({
            let code = seq![29u16, 42, 56, 125, 97, 54, 100, 126][i as int];
            let events = keyboard_events(prev_mod, prev_keys, body);
            &&& events.contains(key_event(code, 1)) <==> !bit(prev_mod, i) && bit(body[0], i)
            &&& events.contains(key_event(code, 0)) <==> bit(prev_mod, i) && !bit(body[0], i)
        }),
{
    let keys = body.subrange(2, 8);
    let m = modifier_edges(prev_mod, body[0], 8);
    let r = key_changes(prev_keys, keys, false, 6);
    let p = key_changes(keys, prev_keys, true, 6);
    let code = seq![29u16, 42, 56, 125, 97, 54, 100, 126][i as int];
    assert(modifier_codes()[i as int] == code);
    lemma_letter_codes_distinct();
    assert forall|k: u8| linux_key(k) != Some(code) by {}
    assert forall|j: int| 0 <= j < 8 && #[trigger] modifier_codes()[j] == code implies j == i by {}
    assert forall|value: i32| value == 0 || value == 1 implies #[trigger] keyboard_events(
        prev_mod,
        prev_keys,
        body,
    ).contains(key_event(code, value)) == (bit(prev_mod, i) != bit(body[0], i) && (bit(body[0], i)
        <==> value == 1)) by {
        let e = key_event(code, value);
        lemma_contains_concat(m + r, p, e);
        lemma_contains_concat(m, r, e);
        lemma_modifier_edges_hold(prev_mod, body[0], 8, code, value);
        lemma_key_changes_hold(prev_keys, keys, false, 6, code, value);
        lemma_key_changes_hold(keys, prev_keys, true, 6, code, value);
    }
    assert(keyboard_events(prev_mod, prev_keys, body).contains(key_event(code, 1)) == (!bit(
        prev_mod,
        i,
    ) && bit(body[0], i)));
    assert(keyboard_events(prev_mod, prev_keys, body).contains(key_event(code, 0)) == (bit(
        prev_mod,
        i,
    ) && !bit(body[0], i)));
}

/// Whether events come in pairs: one of a key, and the end of its packet.
pub open spec fn in_key_pairs(events: Seq<InputEvent>) -> bool {
    &&& events.len() % 2 == 0
    &&& forall|i: int|
        0 <= i < events.len() ==> (#[trigger] events[i]).type_ == if i % 2 == 0 {
            0x01int
        } else {
            0x00
        }
}

proof fn lemma_pairs_concat(a: Seq<InputEvent>, b: Seq<InputEvent>)
    requires
        in_key_pairs(a),
        in_key_pairs(b),
    ensures
        in_key_pairs(a + b),
{
    assert forall|i: int| 0 <= i < (a + b).len() implies (#[trigger] (a + b)[i]).type_ == if i % 2
        == 0 {
        0x01int
    } else {
        0x00
    } by {
        if i >= a.len() {
            assert((a + b)[i] == b[i - a.len()]);
        } else {
            assert((a + b)[i] == a[i]);
        }
    }
}

proof fn lemma_modifier_edges_in_pairs(prev: u8, now: u8, n: nat)
    ensures
        in_key_pairs(modifier_edges(prev, now, n)),
    decreases n,
{
    if n > 0 {
        let k = (n - 1) as u8;
        lemma_modifier_edges_in_pairs(prev, now, (n - 1) as nat);
        lemma_pairs_concat(
            modifier_edges(prev, now, (n - 1) as nat),
            if bit(prev, k) != bit(now, k) {
                key_events(modifier_codes()[k as int], bit(now, k))
            } else {
                Seq::empty()
            },
        );
    }
}

proof fn lemma_key_changes_in_pairs(keys: Seq<u8>, others: Seq<u8>, pressed: bool, n: nat)
    ensures
        in_key_pairs(key_changes(keys, others, pressed, n)),
    decreases n,
{
    if n > 0 {
        let k = keys[n - 1];
        lemma_key_changes_in_pairs(keys, others, pressed, (n - 1) as nat);
        lemma_pairs_concat(
            key_changes(keys, others, pressed, (n - 1) as nat),
            if k == 0 || others.contains(k) || linux_key(k) is None {
                Seq::empty()
            } else {
                key_events(linux_key(k)->Some_0, pressed)
            },
        );
    }
}

/// Every key event of a keyboard report is a packet of its own.
pub proof fn lemma_keyboard_events_in_packets(prev_mod: u8, prev_keys: Seq<u8>, body: Seq<u8>)
    ensures
        in_key_pairs(keyboard_events(prev_mod, prev_keys, body)),
{
    let keys = body.subrange(2, 8);
    let m = modifier_edges(prev_mod, body[0], 8);
    let r = key_changes(prev_keys, keys, false, 6);
    lemma_modifier_edges_in_pairs(prev_mod, body[0], 8);
    lemma_key_changes_in_pairs(prev_keys, keys, false, 6);
    lemma_key_changes_in_pairs(keys, prev_keys, true, 6);
    lemma_pairs_concat(m, r);
    lemma_pairs_concat(m + r, key_changes(keys, prev_keys, true, 6));
}

} // verus!
