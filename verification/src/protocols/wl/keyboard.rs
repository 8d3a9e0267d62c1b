//! `wl_keyboard`: which surface has the keyboard, and what it is told of the keys.
use crate::client::{lemma_after, serial_after, Client, ClientView};
use crate::collections::{
    pressed_in, pressed_insert, pressed_list, pressed_new, pressed_on, pressed_remove,
};
use crate::compositor::Compositor;
use crate::event::{Event, EventView, KeyState};
use crate::message::{Keymap, ModifierState};
use crate::scene::Scene;
use crate::types::{Fd, ObjectId};
use dashmap::{DashMap, DashSet};
use std::collections::hash_map::RandomState;
use vstd::prelude::*;

verus! {

/// A keyboard object of a client. Surfaces are named by their places in the compositor.
pub struct Keyboard {
    pub id: ObjectId,
    focused_surface: Option<usize>,
    pressed_keys: DashMap<u32, DashSet<u32, RandomState>, RandomState>,
    current_keymap_id: Option<Keymap>,
}

#[verifier::ext_equal]
pub ghost struct KeyboardView {
    pub id: ObjectId,
    pub focused: Option<usize>,
    /// The keys that are down on each surface, by the number of the surface.
    pub pressed: Map<u32, Set<u32>>,
    pub keymap: Option<Keymap>,
}

impl View for Keyboard {
    type V = KeyboardView;

    closed spec fn view(&self) -> KeyboardView {
        KeyboardView {
            id: self.id,
            focused: self.focused_surface,
            pressed: pressed_in(self.pressed_keys),
            keymap: self.current_keymap_id,
        }
    }
}

/// Key codes, modifiers and the time that go with one stroke of a key.
#[derive(Debug, Clone, Copy, PartialEq, Eq)]
pub struct Stroke {
    /// The key in the numbering of the protocol.
    pub key: u32,
    pub pressed: bool,
    pub modifier_state: ModifierState,
    /// The milliseconds since the client's display was made.
    pub elapsed_ms: u128,
}

/// A file that holds a key map.
#[derive(Debug, Clone, Copy, PartialEq, Eq, Structural)]
pub struct KeymapFile {
    pub fd: Fd,
    pub size: u32,
}

/// The keys that are down once a key went down or up.
pub open spec fn pressed_after(down: Set<u32>, stroke: Stroke) -> Set<u32> {
    if stroke.pressed {
        down.insert(stroke.key)
    } else {
        down.remove(stroke.key)
    }
}

pub open spec fn modifiers_event(
    keyboard: ObjectId,
    serial: u32,
    modifiers: ModifierState,
    group: u32,
) -> EventView {
    EventView::Plain(
        Event::KeyboardModifiers {
            keyboard,
            serial,
            depressed: modifiers.depressed,
            latched: modifiers.latched,
            locked: modifiers.locked,
            group,
        },
    )
}

/// The surface that has the keyboard and is told that it loses it: it is told as long as
/// anything refers to it.
pub open spec fn left_surface(focused: Option<usize>, scene: Scene) -> Option<ObjectId> {
    match focused {
        Some(old) if scene.surfaces[old as int].alive => Some(scene.surfaces[old as int].id),
        _ => None,
    }
}

/// What is sent when the keyboard moves to a surface on which `keys` are down, the first
/// event taking the serial `serial`.
pub open spec fn focus_events(
    keyboard: ObjectId,
    left: Option<ObjectId>,
    surface: ObjectId,
    keys: Seq<u32>,
    modifiers: ModifierState,
    serial: u32,
) -> Seq<EventView> {
    let leave = match left {
        Some(left) => seq![
            EventView::Plain(
                Event::KeyboardLeave { keyboard, serial, surface: left },
            ),
        ],
        None => Seq::empty(),
    };
    let n = leave.len() as int;
    leave + seq![
        EventView::KeyboardEnter {
            keyboard,
            serial: serial_after(serial, n),
            surface,
            keys,
        },
        modifiers_event(keyboard, serial_after(serial, n + 1), modifiers, 0),
    ]
}

/// What is sent of a stroke itself, the first event taking the serial `serial`.
pub open spec fn stroke_events(keyboard: ObjectId, stroke: Stroke, serial: u32) -> Seq<EventView> {
    seq![
        EventView::Plain(
            Event::KeyboardKey {
                keyboard,
                serial,
                time_ms: (stroke.elapsed_ms % 0x1_0000_0000) as u32,
                key: stroke.key,
                state: if stroke.pressed {
                    KeyState::Pressed
                } else {
                    KeyState::Released
                },
            },
        ),
        modifiers_event(
            keyboard,
            serial_after(serial, 1),
            stroke.modifier_state,
            stroke.modifier_state.layout_group,
        ),
    ]
}

/// What is sent of a stroke on the surface at a place, on which `keys` are down then, while
/// the keyboard is at the place `focused`.
#[verifier::opaque]
pub open spec fn key_events(
    keyboard: ObjectId,
    focused: Option<usize>,
    scene: Scene,
    surface: usize,
    keys: Seq<u32>,
    stroke: Stroke,
    serial: u32,
) -> Seq<EventView> {
    if focused == Some(surface) {
        stroke_events(keyboard, stroke, serial)
    } else {
        let focus = focus_events(
            keyboard,
            left_surface(focused, scene),
            scene.surfaces[surface as int].id,
            keys,
            stroke.modifier_state,
            serial,
        );
        focus + stroke_events(keyboard, stroke, serial_after(serial, focus.len() as int))
    }
}

impl KeyboardView {
    /// The keyboard once a key went down or up on a surface.
    pub open spec fn struck(self, surface: ObjectId, stroke: Stroke) -> KeyboardView {
        KeyboardView {
            pressed: self.pressed.insert(
                surface.raw,
                pressed_after(pressed_on(self.pressed, surface.raw), stroke),
            ),
            ..self
        }
    }

    /// What is sent before a stroke where the key map is another one than before.
    pub open spec fn keymap_events(self, file: KeymapFile) -> Seq<EventView> {
        seq![
            EventView::Plain(
                Event::KeyboardKeymap { keyboard: self.id, fd: file.fd, size: file.size },
            ),
        ]
    }

    /// Whether what a keyboard is told of a stroke starts with a new key map.
    pub open spec fn needs_keymap(self, keymap: Keymap) -> bool {
        self.keymap != Some(keymap)
    }
}

/// How a stroke changes the keyboard and what the client is told of it, where the keys that
/// are down on the surface come in the order `keys`. A new key map that cannot be had leaves
/// all as it is.
pub open spec fn stroke_handled(
    before: KeyboardView,
    after: KeyboardView,
    client_before: ClientView,
    client_after: ClientView,
    scene: Scene,
    surface: usize,
    keymap: Keymap,
    fetched: Option<KeymapFile>,
    keys: Seq<u32>,
    stroke: Stroke,
) -> bool {
    let id = scene.surfaces[surface as int].id;
    let events = key_events(
        before.id,
        before.focused,
        scene,
        surface,
        keys,
        stroke,
        client_before.serial,
    );
    if before.needs_keymap(keymap) && fetched is None {
        &&& after == before
        &&& client_after == client_before
    } else {
        &&& keys.no_duplicates()
        &&& keys.to_set() == pressed_after(pressed_on(before.pressed, id.raw), stroke)
        &&& after == (KeyboardView {
            focused: Some(surface),
            keymap: Some(keymap),
            ..before.struck(id, stroke)
        })
        &&& client_after == client_before.after(
            if before.needs_keymap(keymap) {
                before.keymap_events(fetched->0) + events
            } else {
                events
            },
            events.len() as int,
        )
    }
}

impl Keyboard {
    pub fn new(id: ObjectId) -> (keyboard: Self)
        ensures
            keyboard@ == (KeyboardView {
                id,
                focused: None,
                pressed: Map::empty(),
                keymap: None,
            }),
    {
        Keyboard {
            id,
            focused_surface: None,
            pressed_keys: pressed_new(),
            current_keymap_id: None,
        }
    }

    /// Hands the client the file that holds its key map.
    pub fn send_keymap(&self, client: &mut Client, file: KeymapFile)
        ensures
            final(client)@ == old(client)@.after(self@.keymap_events(file), 0),
    {
        client.send(
            Event::KeyboardKeymap { keyboard: self.id, fd: file.fd, size: file.size },
        );
    }

    /// Whether the client has to be told of a key map before a key of it.
    pub fn needs_keymap(&self, keymap: Keymap) -> (r: bool)
        ensures
            r == self@.needs_keymap(keymap),
    {
        match self.current_keymap_id {
            Some(current) => current != keymap,
            None => true,
        }
    }

    /// Tells the client of a key that went down or up on the surface at a place. `fetched` is
    /// what the key map store has of the key map, where the client does not know it yet.
    pub fn handle_keyboard_key(
        &mut self,
        client: &mut Client,
        compositor: &Compositor,
        surface: usize,
        keymap: Keymap,
        fetched: Option<KeymapFile>,
        stroke: Stroke,
    )
        requires
            surface < compositor@.surfaces.len(),
            old(self)@.focused matches Some(old) ==> old < compositor@.surfaces.len(),
        ensures
            exists|keys: Seq<u32>|
                #[trigger] stroke_handled(
                    old(self)@,
                    final(self)@,
                    old(client)@,
                    final(client)@,
                    compositor@,
                    surface,
                    keymap,
                    fetched,
                    keys,
                    stroke,
                ),
    {
        let ghost before = self@;
        let ghost client_before = client@;
        assert(compositor@.surfaces[surface as int] == compositor.surfaces@[surface as int]@);
        let id: ObjectId = compositor.surfaces[surface].id;
        if !self.update_keymap(client, keymap, fetched) {
            assert(stroke_handled(
                before,
                self@,
                client_before,
                client@,
                compositor@,
                surface,
                keymap,
                fetched,
                Seq::empty(),
                stroke,
            ));
            return ;
        }
        let keys: Vec<u32> = self.update_pressed(id, stroke);
        let ghost listed = keys@;
        self.focus_and_strike(client, compositor, surface, keys, stroke);
        proof {
            let events = key_events(
                before.id,
                before.focused,
                compositor@,
                surface,
                listed,
                stroke,
                client_before.serial,
            );
            if before.needs_keymap(keymap) {
                lemma_after(
                    client_before,
                    before.keymap_events(fetched->0),
                    0,
                    events,
                    events.len() as int,
                );
            }
            assert(stroke_handled(
                before,
                self@,
                client_before,
                client@,
                compositor@,
                surface,
                keymap,
                fetched,
                listed,
                stroke,
            ));
        }
    }

    /// Tells the client of a key map that it does not know yet. Returns whether it knows the
    /// key map then.
    fn update_keymap(
        &mut self,
        client: &mut Client,
        keymap: Keymap,
        fetched: Option<KeymapFile>,
    ) -> (known: bool)
        ensures
            known == (!old(self)@.needs_keymap(keymap) || fetched is Some),
            final(self)@ == if known {
                KeyboardView { keymap: Some(keymap), ..old(self)@ }
            } else {
                old(self)@
            },
            final(client)@ == if known && old(self)@.needs_keymap(keymap) {
                old(client)@.after(old(self)@.keymap_events(fetched->0), 0)
            } else {
                old(client)@
            },
    {
        if self.needs_keymap(keymap) {
            match fetched {
                Some(file) => {
                    self.send_keymap(client, file);
                    self.current_keymap_id = Some(keymap);
                },
                None => {
                    return false;
                },
            }
        }
        true
    }

    /// Notes that a key went down or up, and lists those that are down then.
    fn update_pressed(&mut self, surface: ObjectId, stroke: Stroke) -> (keys: Vec<u32>)
        ensures
            final(self)@ == old(self)@.struck(surface, stroke),
            keys@.no_duplicates(),
            keys@.to_set() == pressed_after(
                pressed_on(old(self)@.pressed, surface.raw),
                stroke,
            ),
    {
        let ghost before = self@;
        if stroke.pressed {
            pressed_insert(&mut self.pressed_keys, surface.raw, stroke.key);
        } else {
            pressed_remove(&mut self.pressed_keys, surface.raw, stroke.key);
        }
        let keys: Vec<u32> = pressed_list(&mut self.pressed_keys, surface.raw);
        assert(self@.pressed =~= before.struck(surface, stroke).pressed);
        keys
    }

    /// Moves the keyboard to the surface at a place, where it is not there already, and tells
    /// the client of a stroke. `keys` are the keys that are down on the surface.
    pub fn focus_and_strike(
        &mut self,
        client: &mut Client,
        compositor: &Compositor,
        surface: usize,
        keys: Vec<u32>,
        stroke: Stroke,
    )
        requires
            surface < compositor@.surfaces.len(),
            old(self)@.focused matches Some(old) ==> old < compositor@.surfaces.len(),
        ensures
            final(self)@ == (KeyboardView { focused: Some(surface), ..old(self)@ }),
            ({
                let events = key_events(
                    old(self)@.id,
                    old(self)@.focused,
                    compositor@,
                    surface,
                    keys@,
                    stroke,
                    old(client)@.serial,
                );
                final(client)@ == old(client)@.after(events, events.len() as int)
            }),
    {
        reveal(key_events);
        let ghost before = self@;
        let ghost start = client@;
        let refocus: bool = match self.focused_surface {
            Some(focused) => focused != surface,
            None => true,
        };
        if refocus {
            let ghost listed = keys@;
            self.focus(client, compositor, surface, keys, stroke.modifier_state);
            let ghost middle = client@;
            self.strike(client, stroke);
            proof {
                let focus = focus_events(
                    before.id,
                    left_surface(before.focused, compositor@),
                    compositor@.surfaces[surface as int].id,
                    listed,
                    stroke.modifier_state,
                    start.serial,
                );
                let last = stroke_events(before.id, stroke, middle.serial);
                lemma_after(start, focus, focus.len() as int, last, 2);
            }
        } else {
            self.strike(client, stroke);
        }
    }

    /// Moves the keyboard to the surface at a place.
    fn focus(
        &mut self,
        client: &mut Client,
        compositor: &Compositor,
        surface: usize,
        keys: Vec<u32>,
        modifiers: ModifierState,
    )
        requires
            surface < compositor@.surfaces.len(),
            old(self)@.focused matches Some(old) ==> old < compositor@.surfaces.len(),
        ensures
            final(self)@ == (KeyboardView { focused: Some(surface), ..old(self)@ }),
            ({
                let events = focus_events(
                    old(self)@.id,
                    left_surface(old(self)@.focused, compositor@),
                    compositor@.surfaces[surface as int].id,
                    keys@,
                    modifiers,
                    old(client)@.serial,
                );
                final(client)@ == old(client)@.after(events, events.len() as int)
            }),
    {
        let ghost before = self@;
        let ghost start = client@;
        let ghost leave = match left_surface(before.focused, compositor@) {
            Some(left) => seq![
                EventView::Plain(
                    Event::KeyboardLeave {
                        keyboard: before.id,
                        serial: start.serial,
                        surface: left,
                    },
                ),
            ],
            None => Seq::empty(),
        };
        assert(compositor@.surfaces[surface as int] == compositor.surfaces@[surface as int]@);
        if let Some(focused) = self.focused_surface {
            assert(compositor@.surfaces[focused as int] == compositor.surfaces@[focused as int]@);
            if compositor.surfaces[focused].alive {
                let serial: u32 = client.next_event_serial();
                client.send(
                    Event::KeyboardLeave {
                        keyboard: self.id,
                        serial,
                        surface: compositor.surfaces[focused].id,
                    },
                );
            }
        }
        let ghost left = client@;
        assert(left.sent =~= start.sent + leave);
        assert(left == start.after(leave, leave.len() as int));
        let serial: u32 = client.next_event_serial();
        let ghost enter = EventView::KeyboardEnter {
            keyboard: self.id,
            serial,
            surface: compositor@.surfaces[surface as int].id,
            keys: keys@,
        };
        client.send(
            Event::KeyboardEnter {
                keyboard: self.id,
                serial,
                surface: compositor.surfaces[surface].id,
                keys,
            },
        );
        assert(client@.sent =~= left.sent + seq![enter]);
        assert(client@ == left.after(seq![enter], 1));
        let ghost next = modifiers_event(self.id, client@.serial, modifiers, 0);
        self.send_modifiers(client, modifiers, 0);
        self.focused_surface = Some(surface);
        proof {
            lemma_after(left, seq![enter], 1, seq![next], 1);
            lemma_after(start, leave, leave.len() as int, seq![enter] + seq![next], 2);
            assert(seq![enter] + seq![next] =~= seq![enter, next]);
        }
    }

    /// Tells the client of a stroke.
    fn strike(&self, client: &mut Client, stroke: Stroke)
        ensures
            final(client)@ == old(client)@.after(
                stroke_events(self@.id, stroke, old(client)@.serial),
                2,
            ),
    {
        let ghost start = client@;
        let serial: u32 = client.next_event_serial();
        let elapsed: u128 = stroke.elapsed_ms;
        assert(elapsed as u32 == elapsed % 0x1_0000_0000) by (bit_vector);
        let state: KeyState = if stroke.pressed {
            KeyState::Pressed
        } else {
            KeyState::Released
        };
        client.send(
            Event::KeyboardKey {
                keyboard: self.id,
                serial,
                time_ms: elapsed as u32,
                key: stroke.key,
                state,
            },
        );
        self.send_modifiers(client, stroke.modifier_state, stroke.modifier_state.layout_group);
        assert(client@.sent =~= start.sent + stroke_events(self.id, stroke, start.serial));
    }

    fn send_modifiers(&self, client: &mut Client, modifiers: ModifierState, group: u32)
        ensures
            final(client)@ == old(client)@.after(
                seq![modifiers_event(self@.id, old(client)@.serial, modifiers, group)],
                1,
            ),
    {
        let serial: u32 = client.next_event_serial();
        client.send(
            Event::KeyboardModifiers {
                keyboard: self.id,
                serial,
                depressed: modifiers.depressed,
                latched: modifiers.latched,
                locked: modifiers.locked,
                group,
            },
        );
    }

    /// Tells the client that no modifier is down; a client without a key map is told nothing.
    pub fn reset(&self, client: &mut Client)
        ensures
            final(client)@ == if self@.keymap is None {
                old(client)@
            } else {
                let none = ModifierState { depressed: 0, latched: 0, locked: 0, layout_group: 0 };
                old(client)@.after(
                    seq![modifiers_event(self@.id, old(client)@.serial, none, 0)],
                    1,
                )
            },
    {
        if self.current_keymap_id.is_none() {
            return ;
        }
        let none = ModifierState { depressed: 0, latched: 0, locked: 0, layout_group: 0 };
        self.send_modifiers(client, none, 0);
    }
}

/// Once a surface was told of a stroke, further strokes on it come without another focus
/// change.
pub proof fn focus_stays_with_the_surface(
    before: KeyboardView,
    after: KeyboardView,
    client_before: ClientView,
    client_after: ClientView,
    scene: Scene,
    surface: usize,
    keymap: Keymap,
    fetched: Option<KeymapFile>,
    keys: Seq<u32>,
    stroke: Stroke,
    later_scene: Scene,
    later_keys: Seq<u32>,
    later: Stroke,
    serial: u32,
)
    requires
        stroke_handled(
            before,
            after,
            client_before,
            client_after,
            scene,
            surface,
            keymap,
            fetched,
            keys,
            stroke,
        ),
        !before.needs_keymap(keymap) || fetched is Some,
    ensures
        !after.needs_keymap(keymap),
        key_events(after.id, after.focused, later_scene, surface, later_keys, later, serial)
            == stroke_events(before.id, later, serial),
{
    reveal(key_events);
}

/// One stroke that a keyboard was told of, and what came of it.
pub ghost struct KeyCall {
    pub before: KeyboardView,
    pub after: KeyboardView,
    pub client_before: ClientView,
    pub client_after: ClientView,
    pub scene: Scene,
    pub surface: usize,
    pub keymap: Keymap,
    pub fetched: Option<KeymapFile>,
    pub keys: Seq<u32>,
    pub stroke: Stroke,
}

impl KeyCall {
    /// Whether the keyboard did with the stroke what it does where the key map can be had.
    pub open spec fn happened(self) -> bool {
        &&& !self.before.needs_keymap(self.keymap) || self.fetched is Some
        &&& stroke_handled(
            self.before,
            self.after,
            self.client_before,
            self.client_after,
            self.scene,
            self.surface,
            self.keymap,
            self.fetched,
            self.keys,
            self.stroke,
        )
    }

    /// The surface on which the key was struck.
    pub open spec fn surface_id(self) -> ObjectId {
        self.scene.surfaces[self.surface as int].id
    }
}

/// Whether a keyboard was told of strokes one after the other. What else happens to the client
/// in between does not matter.
pub open spec fn in_turn(calls: Seq<KeyCall>) -> bool {
    &&& forall|i: int| 0 <= i < calls.len() ==> (#[trigger] calls[i]).happened()
    &&& forall|i: int| 0 < i < calls.len() ==> (#[trigger] calls[i]).before == calls[i - 1].after
}

/// Whether the last stroke of a key on a surface, if there was one, pressed the key.
pub open spec fn last_pressed(calls: Seq<KeyCall>, surface: u32, key: u32) -> bool
    decreases calls.len(),
{
    if calls.len() == 0 {
        false
    } else if calls.last().surface_id().raw == surface && calls.last().stroke.key == key {
        calls.last().stroke.pressed
    } else {
        last_pressed(calls.drop_last(), surface, key)
    }
}

/// The keys that are down on a surface are those that were pressed the last time they were
/// struck there. A surface that gets the keyboard is told of these, each once, and of no
/// others.
pub proof fn keys_are_down_as_last_struck(calls: Seq<KeyCall>)
    requires
        calls.len() > 0,
        in_turn(calls),
        calls[0].before.pressed == Map::<u32, Set<u32>>::empty(),
    ensures
        forall|surface: u32, key: u32|
            #![trigger pressed_on(calls.last().after.pressed, surface).contains(key)]
            pressed_on(calls.last().after.pressed, surface).contains(key) <==> last_pressed(
                calls,
                surface,
                key,
            ),
        ({
            let last = calls.last();
            let told = last.client_after.sent.skip(last.client_before.sent.len() as int);
            &&& last.keys.no_duplicates()
            &&& forall|key: u32| #[trigger]
                last.keys.contains(key) <==> last_pressed(calls, last.surface_id().raw, key)
            &&& last.before.focused != Some(last.surface) ==> exists|serial: u32|
                told.contains(
                    #[trigger] enter_event(last.before.id, serial, last.surface_id(), last.keys),
                )
        }),
    decreases calls.len(),
{
    let last = calls.last();
    let rest = calls.drop_last();
    assert(last == calls[calls.len() - 1]);
    assert(last.happened());
    if rest.len() > 0 {
        assert forall|i: int| 0 <= i < rest.len() implies (#[trigger] rest[i]).happened() by {
            assert(calls[i].happened());
        }
        assert forall|i: int| 0 < i < rest.len() implies (#[trigger] rest[i]).before == rest[i
            - 1].after by {
            assert(calls[i].before == calls[i - 1].after);
        }
        keys_are_down_as_last_struck(rest);
        assert(calls[calls.len() - 1].before == calls[calls.len() - 2].after);
        assert(rest.last() == calls[calls.len() - 2]);
    }
    let id = last.surface_id();
    assert forall|surface: u32, key: u32|
        #![trigger pressed_on(last.after.pressed, surface).contains(key)]
        pressed_on(last.after.pressed, surface).contains(key) <==> last_pressed(
            calls,
            surface,
            key,
        ) by {
        assert(pressed_on(last.before.pressed, surface).contains(key) <==> last_pressed(
            rest,
            surface,
            key,
        ));
    }
    assert forall|key: u32| #[trigger] last.keys.contains(key) <==> last_pressed(
        calls,
        id.raw,
        key,
    ) by {
        assert(last.keys.to_set().contains(key) <==> last.keys.contains(key));
        assert(pressed_on(last.after.pressed, id.raw).contains(key) <==> last_pressed(
            calls,
            id.raw,
            key,
        ));
    }
    if last.before.focused != Some(last.surface) {
        lemma_enter_is_sent(last);
    }
}

/// How a surface is told that it gets the keyboard, and which keys are down.
pub open spec fn enter_event(
    keyboard: ObjectId,
    serial: u32,
    surface: ObjectId,
    keys: Seq<u32>,
) -> EventView {
    EventView::KeyboardEnter { keyboard, serial, surface, keys }
}

proof fn lemma_enter_is_sent(call: KeyCall)
    requires
        call.happened(),
        call.before.focused != Some(call.surface),
    ensures
        exists|serial: u32|
            call.client_after.sent.skip(call.client_before.sent.len() as int).contains(
                #[trigger] enter_event(call.before.id, serial, call.surface_id(), call.keys),
            ),
{
    reveal(key_events);
    let told = call.client_after.sent.skip(call.client_before.sent.len() as int);
    let start = call.client_before.serial;
    let left = left_surface(call.before.focused, call.scene);
    let n: int = if left is Some {
        1
    } else {
        0
    };
    let enter = enter_event(
        call.before.id,
        serial_after(start, n),
        call.surface_id(),
        call.keys,
    );
    let events = key_events(
        call.before.id,
        call.before.focused,
        call.scene,
        call.surface,
        call.keys,
        call.stroke,
        start,
    );
    assert(events[n] == enter);
    let all = if call.before.needs_keymap(call.keymap) {
        call.before.keymap_events(call.fetched->0) + events
    } else {
        events
    };
    assert(told =~= all);
    if call.before.needs_keymap(call.keymap) {
        assert(all[n + 1] == enter);
    } else {
        assert(all[n] == enter);
    }
}

/// A key that was up and is pressed and released again leaves what is down on every surface
/// as it was.
pub proof fn released_keys_are_up(
    keyboard: KeyboardView,
    surface: ObjectId,
    press: Stroke,
    release: Stroke,
    other: u32,
)
    requires
        press.pressed,
        !release.pressed,
        press.key == release.key,
        !pressed_on(keyboard.pressed, surface.raw).contains(press.key),
    ensures
        pressed_on(keyboard.struck(surface, press).pressed, surface.raw).contains(press.key),
        pressed_on(
            keyboard.struck(surface, press).struck(surface, release).pressed,
            other,
        ) == pressed_on(keyboard.pressed, other),
{
    let down = pressed_on(keyboard.pressed, surface.raw);
    assert(down.insert(press.key).remove(press.key) =~= down);
}

} // verus!
