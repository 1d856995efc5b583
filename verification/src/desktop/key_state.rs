//! What a virtual device has pressed: the events of reports keep it exactly at
//! what the last report says is held down.

use vstd::prelude::*;

use crate::desktop::report::{
    bit, button_edges, declared, key_changes, keyboard_events, lemma_keyboard_events_declared,
    lemma_letter_codes_distinct, lemma_linux_key_injective, lemma_mouse_events_declared, linux_key,
    modifier_codes, modifier_edges, mouse_events, report_events, signed_at, state_after, InputState,
};
use crate::desktop::uinput::{
    capability_list, key_events, move_events, wheel_events, Capability, InputEvent, EV_KEY,
};

verus! {

/// Whether a key or button is down behind some events, given whether it was
/// down before them.
pub open spec fn down_after(code: u16, before: bool, events: Seq<InputEvent>) -> bool
    decreases events.len(),
{
    if events.len() == 0 {
        before
    } else {
        let e = events.last();
        if e.type_ == EV_KEY && e.code == code {
            e.value == 1
        } else {
            down_after(code, before, events.drop_last())
        }
    }
}

/// Events one after another.
proof fn lemma_down_after_concat(code: u16, before: bool, a: Seq<InputEvent>, b: Seq<InputEvent>)
    ensures
        down_after(code, before, a + b) == down_after(code, down_after(code, before, a), b),
    decreases b.len(),
{
    if b.len() == 0 {
        assert(a + b =~= a);
    } else {
        assert((a + b).drop_last() =~= a + b.drop_last());
        assert((a + b).last() == b.last());
        lemma_down_after_concat(code, before, a, b.drop_last());
    }
}

/// The press or release of a key concerns that key alone.
proof fn lemma_down_after_key(code: u16, before: bool, key: u16, pressed: bool)
    ensures
        down_after(code, before, key_events(key, pressed)) == if code == key {
            pressed
        } else {
            before
        },
{
    let e = key_events(key, pressed);
    let f = e.drop_last();
    assert(f.drop_last() =~= Seq::<InputEvent>::empty());
    assert(down_after(code, before, f.drop_last()) == before);
    assert(down_after(code, before, f) == if code == key {
        pressed
    } else {
        before
    });
}

/// Motion and wheel press nothing.
proof fn lemma_down_after_relative(code: u16, before: bool, events: Seq<InputEvent>)
    requires
        forall|i: int| 0 <= i < events.len() ==> (#[trigger] events[i]).type_ != EV_KEY,
    ensures
        down_after(code, before, events) == before,
    decreases events.len(),
{
    if events.len() > 0 {
        let head = events.drop_last();
        assert forall|i: int| 0 <= i < head.len() implies (#[trigger] head[i]).type_ != EV_KEY by {
            assert(head[i] == events[i]);
        }
        lemma_down_after_relative(code, before, head);
    }
}

/// Whether the report's mouse buttons hold a button down.
pub open spec fn button_held(buttons: u8, code: u16) -> bool {
    0x110 <= code <= 0x114 && bit(buttons, (code - 0x110) as u8)
}

proof fn lemma_button_edges_track(prev: u8, now: u8, n: nat, code: u16, before: bool)
    requires
        n <= 5,
        before == button_held(prev, code),
    ensures
        down_after(code, before, button_edges(prev, now, n)) == if 0x110 <= code < 0x110 + n {
            button_held(now, code)
        } else {
            before
        },
    decreases n,
{
    if n > 0 {
        let i = (n - 1) as u8;
        let head = button_edges(prev, now, (n - 1) as nat);
        lemma_button_edges_track(prev, now, (n - 1) as nat, code, before);
        let edge = if bit(prev, i) != bit(now, i) {
            key_events((0x110 + i) as u16, bit(now, i))
        } else {
            Seq::empty()
        };
        lemma_down_after_concat(code, before, head, edge);
        if bit(prev, i) != bit(now, i) {
            lemma_down_after_key(
                code,
                down_after(code, before, head),
                (0x110 + i) as u16,
                bit(now, i),
            );
        }
    }
}

/// A mouse report leaves exactly the buttons down that it says are held, as
/// long as the device was in step with the report before.
pub proof fn lemma_mouse_buttons_track(prev: u8, body: Seq<u8>, code: u16, before: bool)
    requires
        body.len() > 0,
        before == button_held(prev, code),
    ensures
        down_after(code, before, mouse_events(prev, body)) == button_held(body[0], code),
{
    let dx = signed_at(body, 1);
    let dy = signed_at(body, 2);
    let wheel = signed_at(body, 3);
    let edges = button_edges(prev, body[0], 5);
    let motion = if dx != 0 || dy != 0 {
        move_events(dx, dy)
    } else {
        Seq::empty()
    };
    let scroll = if wheel != 0 {
        wheel_events(wheel, 0)
    } else {
        Seq::empty()
    };
    lemma_button_edges_track(prev, body[0], 5, code, before);
    lemma_down_after_concat(code, before, edges + motion, scroll);
    lemma_down_after_concat(code, before, edges, motion);
    lemma_down_after_relative(code, down_after(code, before, edges), motion);
    lemma_down_after_relative(code, down_after(code, before, edges + motion), scroll);
}

/// Whether the modifier bits hold a key down.
pub open spec fn modifier_held(modifiers: u8, code: u16) -> bool {
    exists|i: int| 0 <= i < 8 && #[trigger] modifier_codes()[i] == code && bit(modifiers, i as u8)
}

/// Whether the reported usages hold a key down.
pub open spec fn usage_held(keys: Seq<u8>, code: u16) -> bool {
    exists|k: u8| #[trigger] keys.contains(k) && k != 0 && linux_key(k) == Some(code)
}

/// Whether a report's modifiers and usages hold a key down.
pub open spec fn key_held(modifiers: u8, keys: Seq<u8>, code: u16) -> bool {
    modifier_held(modifiers, code) || usage_held(keys, code)
}

/// The modifiers have distinct codes, none of them the code of a usage.
proof fn lemma_modifier_codes_distinct(i: int, j: int, k: u8)
    requires
        0 <= i < 8,
    ensures
        0 <= j < 8 && modifier_codes()[i] == modifier_codes()[j] ==> i == j,
        linux_key(k) != Some(modifier_codes()[i]),
{
    if 0x04 <= k <= 0x1D {
        lemma_letter_codes_distinct();
    }
}

/// Behind the edges of the first `n` modifiers, each of these is down as the
/// new report says and every other key as before.
proof fn lemma_modifier_edges_track(prev: u8, now: u8, n: nat, code: u16, before: bool)
    requires
        n <= 8,
        forall|i: int| 0 <= i < 8 && #[trigger] modifier_codes()[i] == code ==> before == bit(
            prev,
            i as u8,
        ),
    ensures
        ({
            let after = down_after(code, before, modifier_edges(prev, now, n));
            &&& forall|i: int|
                0 <= i < n && #[trigger] modifier_codes()[i] == code ==> after == bit(now, i as u8)
            &&& forall|i: int|
                n <= i < 8 && #[trigger] modifier_codes()[i] == code ==> after == bit(
                    prev,
                    i as u8,
                )
            &&& (forall|i: int| 0 <= i < 8 ==> #[trigger] modifier_codes()[i] != code) ==> after
                == before
        }),
    decreases n,
{
    if n > 0 {
        let i = (n - 1) as u8;
        let key = modifier_codes()[i as int];
        let head = modifier_edges(prev, now, (n - 1) as nat);
        lemma_modifier_edges_track(prev, now, (n - 1) as nat, code, before);
        let edge = if bit(prev, i) != bit(now, i) {
            key_events(key, bit(now, i))
        } else {
            Seq::empty()
        };
        lemma_down_after_concat(code, before, head, edge);
        if bit(prev, i) != bit(now, i) {
            lemma_down_after_key(code, down_after(code, before, head), key, bit(now, i));
        }
        assert forall|j: int| 0 <= j < 8 && #[trigger] modifier_codes()[j] == code && j != i implies key
            != code by {
            lemma_modifier_codes_distinct(i as int, j, 0);
        }
    }
}

/// Behind the changes of the first `n` usages, a key is pressed or released if
/// one of them stands for it and is not among the others, and is else as
/// before.
proof fn lemma_key_changes_track(
    keys: Seq<u8>,
    others: Seq<u8>,
    pressed: bool,
    n: nat,
    code: u16,
    before: bool,
)
    requires
        n <= keys.len(),
    ensures
        down_after(code, before, key_changes(keys, others, pressed, n)) == if exists|j: int|
            0 <= j < n && #[trigger] keys[j] != 0 && !others.contains(keys[j]) && linux_key(
                keys[j],
            ) == Some(code) {
            pressed
        } else {
            before
        },
    decreases n,
{
    if n > 0 {
        let k = keys[n - 1];
        let head = key_changes(keys, others, pressed, (n - 1) as nat);
        lemma_key_changes_track(keys, others, pressed, (n - 1) as nat, code, before);
        let change = if k == 0 || others.contains(k) || linux_key(k) is None {
            Seq::empty()
        } else {
            key_events(linux_key(k)->Some_0, pressed)
        };
        lemma_down_after_concat(code, before, head, change);
        if !(k == 0 || others.contains(k) || linux_key(k) is None) {
            lemma_down_after_key(
                code,
                down_after(code, before, head),
                linux_key(k)->Some_0,
                pressed,
            );
        }
    }
}

/// A keyboard report leaves exactly the keys down that it says are held, as
/// long as the device was in step with the report before: nothing sticks and
/// nothing is lost.
pub proof fn lemma_keyboard_tracks(
    prev_mod: u8,
    prev_keys: Seq<u8>,
    body: Seq<u8>,
    code: u16,
    before: bool,
)
    requires
        prev_keys.len() == 6,
        body.len() == 8,
        before == key_held(prev_mod, prev_keys, code),
    ensures
        down_after(code, before, keyboard_events(prev_mod, prev_keys, body)) == key_held(
            body[0],
            body.subrange(2, 8),
            code,
        ),
{
    let keys = body.subrange(2, 8);
    let m = modifier_edges(prev_mod, body[0], 8);
    let r = key_changes(prev_keys, keys, false, 6);
    let p = key_changes(keys, prev_keys, true, 6);
    lemma_down_after_concat(code, before, m + r, p);
    lemma_down_after_concat(code, before, m, r);
    let after_m = down_after(code, before, m);
    let after_r = down_after(code, after_m, r);
    if exists|i: int| 0 <= i < 8 && #[trigger] modifier_codes()[i] == code {
        // A modifier: no usage has its code.
        let i = choose|i: int| 0 <= i < 8 && #[trigger] modifier_codes()[i] == code;
        assert forall|k: u8| linux_key(k) != Some(code) by {
            lemma_modifier_codes_distinct(i, i, k);
        }
        assert forall|j: int| 0 <= j < 8 && #[trigger] modifier_codes()[j] == code implies j == i by {
            lemma_modifier_codes_distinct(i, j, 0);
        }
        assert(modifier_held(prev_mod, code) == bit(prev_mod, i as u8));
        assert(modifier_held(body[0], code) == bit(body[0], i as u8));
        lemma_modifier_edges_track(prev_mod, body[0], 8, code, before);
    } else {
        assert(!modifier_held(prev_mod, code));
        assert(!modifier_held(body[0], code));
        lemma_modifier_edges_track(prev_mod, body[0], 8, code, before);
    }
    lemma_key_changes_track(prev_keys, keys, false, 6, code, after_m);
    lemma_key_changes_track(keys, prev_keys, true, 6, code, after_r);
    if exists|k: u8| linux_key(k) == Some(code) {
        let k = choose|k: u8| linux_key(k) == Some(code);
        assert forall|other: u8| linux_key(other) == Some(code) implies other == k by {
            lemma_linux_key_injective(k, other);
        }
        assert(linux_key(0) is None);
        assert(usage_held(prev_keys, code) == prev_keys.contains(k));
        assert(usage_held(keys, code) == keys.contains(k));
        let released = exists|j: int|
            0 <= j < 6 && #[trigger] prev_keys[j] != 0 && !keys.contains(prev_keys[j])
                && linux_key(prev_keys[j]) == Some(code);
        let pressed = exists|j: int|
            0 <= j < 6 && #[trigger] keys[j] != 0 && !prev_keys.contains(keys[j]) && linux_key(
                keys[j],
            ) == Some(code);
        if prev_keys.contains(k) && !keys.contains(k) {
            let j = choose|j: int| 0 <= j < prev_keys.len() && prev_keys[j] == k;
            assert(prev_keys[j] != 0 && !keys.contains(prev_keys[j]));
        }
        assert(released == (prev_keys.contains(k) && !keys.contains(k)));
        if keys.contains(k) && !prev_keys.contains(k) {
            let j = choose|j: int| 0 <= j < keys.len() && keys[j] == k;
            assert(keys[j] != 0 && !prev_keys.contains(keys[j]));
        }
        assert(pressed == (keys.contains(k) && !prev_keys.contains(k)));
    }
}

/// Events that do not concern a key leave it as it is.
proof fn lemma_down_after_others(code: u16, before: bool, events: Seq<InputEvent>)
    requires
        forall|i: int|
            0 <= i < events.len() ==> (#[trigger] events[i]).type_ != EV_KEY || events[i].code
                != code,
    ensures
        down_after(code, before, events) == before,
    decreases events.len(),
{
    if events.len() > 0 {
        let head = events.drop_last();
        assert forall|i: int| 0 <= i < head.len() implies (#[trigger] head[i]).type_ != EV_KEY
            || head[i].code != code by {
            assert(head[i] == events[i]);
        }
        lemma_down_after_others(code, before, head);
    }
}

/// Whether the last reports hold a key or button down.
pub open spec fn held(s: InputState, code: u16) -> bool {
    button_held(s.buttons, code) || key_held(s.modifiers, s.keys@, code)
}

/// Only buttons have codes from 0x110 on.
proof fn lemma_keys_are_no_buttons(modifiers: u8, keys: Seq<u8>, code: u16)
    requires
        key_held(modifiers, keys, code),
    ensures
        code <= 255,
{
    if modifier_held(modifiers, code) {
        let i = choose|i: int|
            0 <= i < 8 && #[trigger] modifier_codes()[i] == code && bit(modifiers, i as u8);
        assert(modifier_codes()[i] <= 126);
    } else {
        let k = choose|k: u8| #[trigger] keys.contains(k) && k != 0 && linux_key(k) == Some(code);
        lemma_letter_codes_distinct();
    }
}

/// Whatever report comes in, the device has exactly those keys and buttons down
/// behind it that the reports so far hold: a device that was in step with the
/// reports stays in step.
pub proof fn lemma_device_stays_in_step(s: InputState, body: Seq<u8>, after: InputState, code: u16)
    requires
        state_after(s, body, after),
    ensures
        down_after(code, held(s, code), report_events(s, body)) == held(after, code),
{
    let events = report_events(s, body);
    if key_held(s.modifiers, s.keys@, code) {
        lemma_keys_are_no_buttons(s.modifiers, s.keys@, code);
    }
    if key_held(after.modifiers, after.keys@, code) {
        lemma_keys_are_no_buttons(after.modifiers, after.keys@, code);
    }
    if body.len() == 8 {
        if code <= 255 {
            lemma_keyboard_tracks(s.modifiers, s.keys@, body, code, held(s, code));
        } else {
            lemma_keyboard_events_declared(s.modifiers, s.keys@, body);
            assert forall|i: int| 0 <= i < events.len() implies (#[trigger] events[i]).type_
                != EV_KEY || events[i].code != code by {
                assert(declared(capability_list(true), events[i]));
                if events[i].type_ == EV_KEY {
                    lemma_keyboard_declares_low_codes(events[i].code);
                }
            }
            lemma_down_after_others(code, held(s, code), events);
        }
    } else if body.len() > 0 {
        if 0x110 <= code <= 0x114 {
            lemma_mouse_buttons_track(s.buttons, body, code, held(s, code));
        } else {
            lemma_mouse_events_declared(s.buttons, body);
            assert forall|i: int| 0 <= i < events.len() implies (#[trigger] events[i]).type_
                != EV_KEY || events[i].code != code by {
                assert(declared(capability_list(false), events[i]));
                if events[i].type_ == EV_KEY {
                    lemma_mouse_declares_buttons(events[i].code);
                }
            }
            lemma_down_after_others(code, held(s, code), events);
        }
    }
}

proof fn lemma_keyboard_declares_low_codes(code: u16)
    requires
        capability_list(true).contains(Capability::Key(code)),
    ensures
        code <= 255,
{
    let caps = capability_list(true);
    let i = choose|i: int| 0 <= i < caps.len() && caps[i] == Capability::Key(code);
    assert(caps[i] == Capability::Key(code));
    if i >= 2 {
        assert(caps[i] == Capability::Key((i - 2 + 1) as u16));
    }
}

proof fn lemma_mouse_declares_buttons(code: u16)
    requires
        capability_list(false).contains(Capability::Key(code)),
    ensures
        0x110 <= code <= 0x114,
{
    let caps = capability_list(false);
    let i = choose|i: int| 0 <= i < caps.len() && caps[i] == Capability::Key(code);
    assert(caps[i] == Capability::Key(code));
}

} // verus!
