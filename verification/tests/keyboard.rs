use stardust_xr_wayland_service::client::Client;
use stardust_xr_wayland_service::compositor::Compositor;
use stardust_xr_wayland_service::event::{Event, KeyState};
use stardust_xr_wayland_service::message::{Keymap, ModifierState};
use stardust_xr_wayland_service::protocols::wl::keyboard::{Keyboard, KeymapFile, Stroke};
use stardust_xr_wayland_service::types::{Fd, ObjectId};

fn id(raw: u32) -> ObjectId {
    ObjectId { raw }
}

const MODS: ModifierState = ModifierState { depressed: 1, latched: 2, locked: 4, layout_group: 3 };
const MAP: Keymap = Keymap { raw: 1 };
const FILE: KeymapFile = KeymapFile { fd: Fd { raw: 5 }, size: 800 };

fn stroke(key: u32, pressed: bool) -> Stroke {
    Stroke { key, pressed, modifier_state: MODS, elapsed_ms: 0x1_0000_0000 + 25 }
}

fn modifiers(serial: u32, group: u32) -> Event {
    Event::KeyboardModifiers {
        keyboard: id(9),
        serial,
        depressed: 1,
        latched: 2,
        locked: 4,
        group,
    }
}

fn key(serial: u32, key: u32, state: KeyState) -> Event {
    Event::KeyboardKey { keyboard: id(9), serial, time_ms: 25, key, state }
}

fn two_surfaces() -> Compositor {
    let mut compositor = Compositor::new();
    compositor.new_surface(id(100));
    compositor.new_surface(id(200));
    compositor
}

#[test]
fn first_key_brings_keymap_and_focus() {
    let mut client = Client::new();
    let compositor = two_surfaces();
    let mut keyboard = Keyboard::new(id(9));
    assert!(keyboard.needs_keymap(MAP));
    keyboard.handle_keyboard_key(&mut client, &compositor, 0, MAP, Some(FILE), stroke(30, true));
    assert!(!keyboard.needs_keymap(MAP));
    assert!(keyboard.needs_keymap(Keymap { raw: 2 }));
    assert_eq!(
        client.take_outgoing(),
        vec![
            Event::KeyboardKeymap { keyboard: id(9), fd: Fd { raw: 5 }, size: 800 },
            Event::KeyboardEnter {
                keyboard: id(9),
                serial: 0,
                surface: id(100),
                keys: vec![30],
            },
            modifiers(1, 0),
            key(2, 30, KeyState::Pressed),
            modifiers(3, 3),
        ]
    );
}

#[test]
fn keys_without_a_keymap_are_dropped() {
    let mut client = Client::new();
    let compositor = two_surfaces();
    let mut keyboard = Keyboard::new(id(9));
    keyboard.handle_keyboard_key(&mut client, &compositor, 0, MAP, None, stroke(30, true));
    assert_eq!(client.take_outgoing(), vec![]);
    keyboard.handle_keyboard_key(&mut client, &compositor, 0, MAP, Some(FILE), stroke(31, false));
    let events = client.take_outgoing();
    // The key that was dropped is not down.
    assert_eq!(
        events[1],
        Event::KeyboardEnter { keyboard: id(9), serial: 0, surface: id(100), keys: vec![] }
    );
}

#[test]
fn focus_moves_with_the_keys() {
    let mut client = Client::new();
    let mut compositor = two_surfaces();
    let mut keyboard = Keyboard::new(id(9));
    for k in [30, 31] {
        keyboard.handle_keyboard_key(
            &mut client,
            &compositor,
            0,
            MAP,
            Some(FILE),
            stroke(k, true),
        );
    }
    // Focus is told once.
    assert_eq!(client.take_outgoing().len(), 7);
    keyboard.handle_keyboard_key(&mut client, &compositor, 1, MAP, None, stroke(32, true));
    assert_eq!(
        client.take_outgoing(),
        vec![
            Event::KeyboardLeave { keyboard: id(9), serial: 6, surface: id(100) },
            Event::KeyboardEnter {
                keyboard: id(9),
                serial: 7,
                surface: id(200),
                keys: vec![32],
            },
            modifiers(8, 0),
            key(9, 32, KeyState::Pressed),
            modifiers(10, 3),
        ]
    );
    // What was down on the first surface still is; a surface that is gone is not left.
    compositor.release_surface(1);
    keyboard.handle_keyboard_key(&mut client, &compositor, 0, MAP, None, stroke(31, false));
    assert_eq!(
        client.take_outgoing(),
        vec![
            Event::KeyboardEnter {
                keyboard: id(9),
                serial: 11,
                surface: id(100),
                keys: vec![30],
            },
            modifiers(12, 0),
            key(13, 31, KeyState::Released),
            modifiers(14, 3),
        ]
    );
}

#[test]
fn all_pressed_keys_are_listed_once() {
    let mut client = Client::new();
    let compositor = two_surfaces();
    let mut keyboard = Keyboard::new(id(9));
    for k in [30, 31, 32, 30] {
        keyboard.handle_keyboard_key(
            &mut client,
            &compositor,
            0,
            MAP,
            Some(FILE),
            stroke(k, true),
        );
    }
    keyboard.handle_keyboard_key(&mut client, &compositor, 1, MAP, None, stroke(40, true));
    client.take_outgoing();
    keyboard.handle_keyboard_key(&mut client, &compositor, 0, MAP, None, stroke(31, false));
    let events = client.take_outgoing();
    match &events[1] {
        Event::KeyboardEnter { keys, .. } => {
            let mut keys = keys.clone();
            keys.sort();
            assert_eq!(keys, vec![30, 32]);
        }
        other => panic!("not an enter event: {:?}", other),
    }
}

#[test]
fn listed_keys_are_sent_in_order() {
    let mut client = Client::new();
    let compositor = two_surfaces();
    let mut keyboard = Keyboard::new(id(9));
    keyboard.focus_and_strike(&mut client, &compositor, 1, vec![3, 1, 2], stroke(2, true));
    assert_eq!(
        client.take_outgoing()[0],
        Event::KeyboardEnter { keyboard: id(9), serial: 0, surface: id(200), keys: vec![3, 1, 2] }
    );
}

#[test]
fn reset_lifts_the_modifiers() {
    let mut client = Client::new();
    let compositor = two_surfaces();
    let mut keyboard = Keyboard::new(id(9));
    keyboard.reset(&mut client);
    assert_eq!(client.take_outgoing(), vec![]);
    keyboard.handle_keyboard_key(&mut client, &compositor, 0, MAP, Some(FILE), stroke(30, true));
    client.take_outgoing();
    keyboard.reset(&mut client);
    assert_eq!(
        client.take_outgoing(),
        vec![Event::KeyboardModifiers {
            keyboard: id(9),
            serial: 4,
            depressed: 0,
            latched: 0,
            locked: 0,
            group: 0,
        }]
    );
}

#[test]
fn keymaps_can_be_sent_alone() {
    let mut client = Client::new();
    Keyboard::new(id(9)).send_keymap(&mut client, FILE);
    assert_eq!(
        client.take_outgoing(),
        vec![Event::KeyboardKeymap { keyboard: id(9), fd: Fd { raw: 5 }, size: 800 }]
    );
}
