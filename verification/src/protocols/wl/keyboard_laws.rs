//! What clients learn of keys, over one stroke and over many.
use crate::client::serial_after;
use crate::collections::pressed_on;
use crate::event::{Event, EventView, KeyState};
use crate::message::ModifierState;
use crate::protocols::wl::keyboard::{
    in_turn, key_events, modifiers_event, KeyCall, KeyboardView, Stroke,
};
use crate::types::ObjectId;
use vstd::prelude::*;

verus! {

/// What the client was told of a stroke.
pub open spec fn told(call: KeyCall) -> Seq<EventView> {
    call.client_after.sent.skip(call.client_before.sent.len() as int)
}

/// Whether an event tells of a key map.
pub open spec fn is_keymap(event: EventView) -> bool {
    event matches EventView::Plain(Event::KeyboardKeymap { .. })
}

/// Whether a stroke comes to the client: its key map is the one that the client knows, or can be
/// had.
pub open spec fn comes_through(call: KeyCall) -> bool {
    call.before.keymap == Some(call.keymap) || call.fetched is Some
}

/// Whether a keyboard did with a stroke what it does.
pub open spec fn was_handled(call: KeyCall) -> bool {
    crate::protocols::wl::keyboard::stroke_handled(
        call.before,
        call.after,
        call.client_before,
        call.client_after,
        call.scene,
        call.surface,
        call.keymap,
        call.fetched,
        call.keys,
        call.stroke,
    )
}

/// A serial `n` steps after another one, beginning again after the last.
pub open spec fn serial_plus(serial: u32, n: int) -> int {
    if serial + n > u32::MAX {
        serial + n - 0x1_0000_0000
    } else {
        serial + n
    }
}

/// All that a client is told of a stroke that comes through: the key map, where it is not the
/// one that the client knows; then, where the keyboard is not at the surface, that the live
/// surface at which it was loses it, that this one gets it and with which keys, and the
/// modifiers; then the key and the modifiers. Every event but the key map has the next serial.
pub proof fn strokes_are_told_in_full(call: KeyCall)
    requires
        was_handled(call),
        comes_through(call),
    ensures
        ({
            let all = told(call);
            let id = call.before.id;
            let start = call.client_before.serial;
            let old = call.before.focused;
            let moves = old != Some(call.surface);
            let leaves = moves && old is Some && call.scene.surfaces[old->0 as int].alive;
            let k: int = if call.before.keymap == Some(call.keymap) {
                0
            } else {
                1
            };
            let l: int = if leaves {
                1
            } else {
                0
            };
            let f: int = if moves {
                l + 2
            } else {
                0
            };
            let m = call.stroke.modifier_state;
            &&& call.client_before.sent.is_prefix_of(call.client_after.sent)
            &&& call.client_after.objects == call.client_before.objects
            &&& call.client_after.serial == serial_plus(start, f + 2)
            &&& all.len() == k + f + 2
            &&& k == 1 ==> all[0] == EventView::Plain(
                Event::KeyboardKeymap {
                    keyboard: id,
                    fd: call.fetched->0.fd,
                    size: call.fetched->0.size,
                },
            )
            &&& leaves ==> (all[k] matches EventView::Plain(
                Event::KeyboardLeave { keyboard, serial, surface },
            ) && keyboard == id && serial == start && surface
                == call.scene.surfaces[old->0 as int].id)
            &&& moves ==> (all[k + l] matches EventView::KeyboardEnter {
                keyboard,
                serial,
                surface,
                keys,
            } && keyboard == id && serial == serial_plus(start, l) && surface
                == call.scene.surfaces[call.surface as int].id && keys == call.keys)
            &&& moves ==> (all[k + l + 1] matches EventView::Plain(
                Event::KeyboardModifiers { keyboard, serial, depressed, latched, locked, group },
            ) && keyboard == id && serial == serial_plus(start, l + 1) && depressed == m.depressed
                && latched == m.latched && locked == m.locked && group == 0)
            &&& all[k + f] matches EventView::Plain(
                Event::KeyboardKey { keyboard, serial, time_ms, key, state },
            ) && keyboard == id && serial == serial_plus(start, f) && time_ms
                == call.stroke.elapsed_ms as int % 0x1_0000_0000 && key == call.stroke.key && (
            state == KeyState::Pressed <==> call.stroke.pressed)
            &&& all[k + f + 1] matches EventView::Plain(
                Event::KeyboardModifiers { keyboard, serial, depressed, latched, locked, group },
            ) && keyboard == id && serial == serial_plus(start, f + 1) && depressed == m.depressed
                && latched == m.latched && locked == m.locked && group == m.layout_group
        }),
{
    reveal(key_events);
    let events = key_events(
        call.before.id,
        call.before.focused,
        call.scene,
        call.surface,
        call.keys,
        call.stroke,
        call.client_before.serial,
    );
    let all = if call.before.keymap == Some(call.keymap) {
        events
    } else {
        call.before.keymap_events(call.fetched->0) + events
    };
    assert(told(call) =~= all);
    assert(call.client_before.sent =~= call.client_after.sent.take(
        call.client_before.sent.len() as int,
    ));
}

/// A stroke that comes through leaves the keyboard at its surface and the client with its key
/// map; of the keys that are down, only the one that was struck may differ, and only on that
/// surface. One that does not come through changes nothing, and nothing is told of it.
pub proof fn strokes_leave_the_keyboard(call: KeyCall, surface: u32, key: u32)
    requires
        was_handled(call),
    ensures
        ({
            let id = call.scene.surfaces[call.surface as int].id;
            let down = pressed_on(call.after.pressed, surface).contains(key);
            &&& comes_through(call) ==> {
                &&& call.after.id == call.before.id
                &&& call.after.focused == Some(call.surface)
                &&& call.after.keymap == Some(call.keymap)
                &&& surface == id.raw && key == call.stroke.key ==> down == call.stroke.pressed
                &&& surface != id.raw || key != call.stroke.key ==> down == pressed_on(
                    call.before.pressed,
                    surface,
                ).contains(key)
            }
            &&& !comes_through(call) ==> {
                &&& call.after == call.before
                &&& call.client_after == call.client_before
            }
        }),
{
}

/// The keys that are down on a surface are those that are recorded of it.
pub proof fn unknown_surfaces_have_no_keys(pressed: Map<u32, Set<u32>>, surface: u32, key: u32)
    ensures
        pressed_on(pressed, surface).contains(key) <==> pressed.contains_key(surface)
            && pressed[surface].contains(key),
{
}

/// Over any strokes in turn a client is told of the key map of a stroke, first of all, exactly
/// where it is not that of the stroke before, or where there was none before; and of no other.
/// So the key map that the client was told of last is that of the stroke.
pub proof fn strokes_come_with_their_keymap(calls: Seq<KeyCall>, i: int)
    requires
        in_turn(calls),
        calls[0].before.keymap is None,
        0 <= i < calls.len(),
    ensures
        ({
            let call = calls[i];
            let new = i == 0 || calls[i - 1].keymap != call.keymap;
            &&& new ==> call.fetched is Some && told(call)[0] == EventView::Plain(
                Event::KeyboardKeymap {
                    keyboard: call.before.id,
                    fd: call.fetched->0.fd,
                    size: call.fetched->0.size,
                },
            )
            &&& forall|j: int|
                0 <= j < told(call).len() && is_keymap(#[trigger] told(call)[j]) ==> new && j == 0
        }),
{
    let call = calls[i];
    assert(call.happened());
    if i > 0 {
        assert(calls[i].before == calls[i - 1].after);
        assert(calls[i - 1].happened());
        strokes_leave_the_keyboard(calls[i - 1], 0, 0);
    }
    assert(comes_through(call));
    strokes_are_told_in_full(call);
}

/// Modifiers are told as they are.
pub proof fn modifiers_are_told(keyboard: ObjectId, serial: u32, m: ModifierState, group: u32)
    ensures
        modifiers_event(keyboard, serial, m, group) == EventView::Plain(
            Event::KeyboardModifiers {
                keyboard,
                serial,
                depressed: m.depressed,
                latched: m.latched,
                locked: m.locked,
                group,
            },
        ),
{
}

/// A stroke comes through a keyboard that knows its key map without another key map.
pub proof fn keymaps_are_needed_once(keyboard: KeyboardView, surface: ObjectId, stroke: Stroke)
    ensures
        keyboard.struck(surface, stroke).keymap == keyboard.keymap,
        keyboard.struck(surface, stroke).focused == keyboard.focused,
        keyboard.struck(surface, stroke).id == keyboard.id,
{
}

/// Serials are counted up by one and begin again at zero.
pub proof fn serials_count_up(serial: u32)
    ensures
        serial_after(serial, 0) == serial,
        serial < u32::MAX ==> serial_after(serial, 1) == serial + 1,
        serial_after(u32::MAX, 1) == 0,
{
}

} // verus!
