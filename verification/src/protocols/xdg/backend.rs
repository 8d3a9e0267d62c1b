//! The panel item that stands for a mapped toplevel.
use crate::collections::{
    children_get, children_in, children_insert, children_new, children_remove, Child,
};
use crate::compositor::Compositor;
use crate::message::{Keymap, Message, ModifierState, ScrollSource, SeatMessage, Vec2F};
use crate::protocols::xdg::custody::Custody;
use crate::types::{ChildState, Geometry, ObjectId, SurfaceId, SurfaceUpdateTarget, Vector2};
use dashmap::DashMap;
use std::collections::hash_map::RandomState;
use vstd::prelude::*;

verus! {

/// A call to the shell that shows a panel item.
#[derive(Debug, Clone, Copy, PartialEq, Eq)]
pub enum ShellCall {
    ToplevelResized { size: Vector2<u32> },
    CreateChild { info: ChildState },
    MoveChild { id: u64, geometry: Geometry },
    DestroyChild { id: u64 },
    /// Comes with the submission of the buffer that it names.
    UpdateSurfaceDmatex { target: SurfaceUpdateTarget, buffer: ObjectId, opaque: bool },
}

/// What a shell is told of the texts of a toplevel.
#[derive(Debug, PartialEq, Eq)]
pub enum ToplevelText {
    Title(String),
    AppId(String),
}

/// A panel item: the child surfaces it has.
pub struct XdgBackend {
    children: DashMap<u64, Child, RandomState>,
}

impl View for XdgBackend {
    type V = Map<u64, Child>;

    closed spec fn view(&self) -> Map<u64, Child> {
        children_in(self.children)
    }
}

/// The id by which a panel item knows a surface as its child; a surface that is no child
/// has none.
pub open spec fn child_id(surface_id: Option<SurfaceUpdateTarget>) -> Option<u64> {
    match surface_id {
        Some(SurfaceUpdateTarget::Child { id }) => Some(id),
        _ => None,
    }
}

/// The children once one of them, if it is there, was moved.
pub open spec fn moved_child(children: Map<u64, Child>, id: u64, geometry: Geometry) -> Map<
    u64,
    Child,
> {
    if children.contains_key(id) {
        let child = children[id];
        children.insert(id, Child { info: ChildState { geometry, ..child.info }, ..child })
    } else {
        children
    }
}

impl XdgBackend {
    /// A panel item without children, and the message that makes the seat forget what was
    /// pressed before.
    pub fn new() -> (r: (Self, Message))
        ensures
            r.0@ == Map::<u64, Child>::empty(),
            r.1 == Message::Seat(SeatMessage::Reset),
    {
        (XdgBackend { children: children_new() }, Self::reset_input())
    }

    /// A panel item without children that an acceptor has taken, what its shell is told at
    /// first, that is the title and the app id as far as the toplevel has them, and what is to
    /// become of the toplevel once the acceptor lets go. `spatial` is the place that the
    /// acceptor has given the panel item.
    pub fn connect<S>(
        toplevel: usize,
        spatial: S,
        title: Option<String>,
        app_id: Option<String>,
    ) -> (r: (Self, Vec<ToplevelText>, Custody<S>))
        ensures
            r.0@ == Map::<u64, Child>::empty(),
            r.1@ == (match title {
                Some(title) => seq![ToplevelText::Title(title)],
                None => Seq::empty(),
            }) + (match app_id {
                Some(app_id) => seq![ToplevelText::AppId(app_id)],
                None => Seq::empty(),
            }),
            r.2 == (Custody::Held { toplevel, spatial }),
    {
        let mut calls: Vec<ToplevelText> = Vec::new();
        if let Some(title) = title {
            calls.push(ToplevelText::Title(title));
        }
        if let Some(app_id) = app_id {
            calls.push(ToplevelText::AppId(app_id));
        }
        (XdgBackend { children: children_new() }, calls, Custody::Held { toplevel, spatial })
    }

    /// The child that the panel item has under an id.
    pub fn child(&self, id: u64) -> (child: Option<Child>)
        ensures
            child == (if self@.contains_key(id) {
                Some(self@[id])
            } else {
                None
            }),
    {
        children_get(&self.children, id)
    }

    /// Adds a child, or puts a new one in the place of an old one, and tells the shell. A
    /// surface that is no child is left alone.
    pub fn add_child(
        &mut self,
        surface: usize,
        surface_id: Option<SurfaceUpdateTarget>,
        info: ChildState,
    ) -> (call: Option<ShellCall>)
        ensures
            match child_id(surface_id) {
                Some(id) => {
                    &&& call == Some(ShellCall::CreateChild { info })
                    &&& final(self)@ == old(self)@.insert(id, (Child { surface, info }))
                },
                None => {
                    &&& call is None
                    &&& final(self)@ == old(self)@
                },
            },
    {
        match surface_id {
            Some(SurfaceUpdateTarget::Child { id }) => {
                children_insert(&mut self.children, id, Child { surface, info });
                Some(ShellCall::CreateChild { info })
            },
            _ => None,
        }
    }

    /// Moves a child. The shell is told even of a child that was never added.
    pub fn reposition_child(
        &mut self,
        surface_id: Option<SurfaceUpdateTarget>,
        geometry: Geometry,
    ) -> (call: Option<ShellCall>)
        ensures
            match child_id(surface_id) {
                Some(id) => {
                    &&& call == Some(ShellCall::MoveChild { id, geometry })
                    &&& final(self)@ == moved_child(old(self)@, id, geometry)
                },
                None => {
                    &&& call is None
                    &&& final(self)@ == old(self)@
                },
            },
    {
        match surface_id {
            Some(SurfaceUpdateTarget::Child { id }) => {
                if let Some(child) = children_get(&self.children, id) {
                    let info = ChildState { geometry, ..child.info };
                    children_insert(&mut self.children, id, Child { surface: child.surface, info });
                }
                Some(ShellCall::MoveChild { id, geometry })
            },
            _ => None,
        }
    }

    /// Puts a child on another level. The shell is told of the place of the child, and only
    /// of a child that was added.
    pub fn update_child_z_order(
        &mut self,
        surface_id: Option<SurfaceUpdateTarget>,
        z_order: i32,
    ) -> (call: Option<ShellCall>)
        ensures
            match child_id(surface_id) {
                Some(id) if old(self)@.contains_key(id) => {
                    let child = old(self)@[id];
                    &&& call == Some(
                        ShellCall::MoveChild { id, geometry: child.info.geometry },
                    )
                    &&& final(self)@ == old(self)@.insert(
                        id,
                        Child { info: ChildState { z_order, ..child.info }, ..child },
                    )
                },
                _ => {
                    &&& call is None
                    &&& final(self)@ == old(self)@
                },
            },
    {
        match surface_id {
            Some(SurfaceUpdateTarget::Child { id }) => {
                match children_get(&self.children, id) {
                    Some(child) => {
                        let info = ChildState { z_order, ..child.info };
                        children_insert(
                            &mut self.children,
                            id,
                            Child { surface: child.surface, info },
                        );
                        Some(ShellCall::MoveChild { id, geometry: info.geometry })
                    },
                    None => None,
                }
            },
            _ => None,
        }
    }

    /// Drops a child. The shell is told even of a child that was never added.
    pub fn remove_child(&mut self, surface_id: Option<SurfaceUpdateTarget>) -> (call: Option<
        ShellCall,
    >)
        ensures
            match child_id(surface_id) {
                Some(id) => {
                    &&& call == Some(ShellCall::DestroyChild { id })
                    &&& final(self)@ == old(self)@.remove(id)
                },
                None => {
                    &&& call is None
                    &&& final(self)@ == old(self)@
                },
            },
    {
        match surface_id {
            Some(SurfaceUpdateTarget::Child { id }) => {
                children_remove(&mut self.children, id);
                Some(ShellCall::DestroyChild { id })
            },
            _ => None,
        }
    }
}

/// A message that is sent where a part of a panel item shows a surface.
pub open spec fn seat_message(surface: Option<usize>, message: spec_fn(usize) -> SeatMessage) -> Option<
    Message,
> {
    match surface {
        Some(surface) => Some(Message::Seat(message(surface))),
        None => None,
    }
}

/// What the panel item of a toplevel passes on to the client. Input for a part that shows no
/// surface is dropped.
impl XdgBackend {
    /// The pointer moved.
    pub fn pointer_motion(
        compositor: &Compositor,
        toplevel: usize,
        surface: SurfaceId,
        delta: Option<Vec2F>,
        position: Vec2F,
    ) -> (message: Option<Message>)
        requires
            compositor.wf(),
            toplevel < compositor@.toplevels.len(),
        ensures
            message == seat_message(
                compositor@.item_surface(toplevel, surface),
                |surface: usize| SeatMessage::PointerMotion { surface, delta, position },
            ),
    {
        match compositor.surface_from_id(toplevel, surface) {
            Some(surface) => Some(
                Message::Seat(SeatMessage::PointerMotion { surface, delta, position }),
            ),
            None => None,
        }
    }

    /// A button of the pointer went down or up.
    pub fn pointer_button(
        compositor: &Compositor,
        toplevel: usize,
        surface: SurfaceId,
        button: u32,
        pressed: bool,
    ) -> (message: Option<Message>)
        requires
            compositor.wf(),
            toplevel < compositor@.toplevels.len(),
        ensures
            message == seat_message(
                compositor@.item_surface(toplevel, surface),
                |surface: usize| SeatMessage::PointerButton { surface, button, pressed },
            ),
    {
        match compositor.surface_from_id(toplevel, surface) {
            Some(surface) => Some(
                Message::Seat(SeatMessage::PointerButton { surface, button, pressed }),
            ),
            None => None,
        }
    }

    /// The pointer scrolled by steps.
    pub fn pointer_scroll_discrete(
        compositor: &Compositor,
        toplevel: usize,
        surface: SurfaceId,
        delta: Vec2F,
        source: ScrollSource,
    ) -> (message: Option<Message>)
        requires
            compositor.wf(),
            toplevel < compositor@.toplevels.len(),
        ensures
            message == seat_message(
                compositor@.item_surface(toplevel, surface),
                |surface: usize| SeatMessage::PointerScrollDiscrete { surface, delta, source },
            ),
    {
        match compositor.surface_from_id(toplevel, surface) {
            Some(surface) => Some(
                Message::Seat(SeatMessage::PointerScrollDiscrete { surface, delta, source }),
            ),
            None => None,
        }
    }

    /// The pointer scrolled by pixels, which the seat takes for steps.
    pub fn pointer_scroll_pixels(
        compositor: &Compositor,
        toplevel: usize,
        surface: SurfaceId,
        delta: Vec2F,
        source: ScrollSource,
    ) -> (message: Option<Message>)
        requires
            compositor.wf(),
            toplevel < compositor@.toplevels.len(),
        ensures
            message == seat_message(
                compositor@.item_surface(toplevel, surface),
                |surface: usize| SeatMessage::PointerScrollDiscrete { surface, delta, source },
            ),
    {
        match compositor.surface_from_id(toplevel, surface) {
            Some(surface) => Some(
                Message::Seat(SeatMessage::PointerScrollDiscrete { surface, delta, source }),
            ),
            None => None,
        }
    }

    /// The pointer stopped scrolling.
    pub fn pointer_scroll_stop(
        compositor: &Compositor,
        toplevel: usize,
        surface: SurfaceId,
    ) -> (message: Option<Message>)
        requires
            compositor.wf(),
            toplevel < compositor@.toplevels.len(),
        ensures
            message == seat_message(
                compositor@.item_surface(toplevel, surface),
                |surface: usize| SeatMessage::PointerScrollStop { surface },
            ),
    {
        match compositor.surface_from_id(toplevel, surface) {
            Some(surface) => Some(
                Message::Seat(SeatMessage::PointerScrollStop { surface }),
            ),
            None => None,
        }
    }

    /// A key went down or up.
    pub fn key(
        compositor: &Compositor,
        toplevel: usize,
        surface: SurfaceId,
        key: u32,
        pressed: bool,
        modifier_state: ModifierState,
        keymap: Keymap,
    ) -> (message: Option<Message>)
        requires
            compositor.wf(),
            toplevel < compositor@.toplevels.len(),
        ensures
            message == seat_message(
                compositor@.item_surface(toplevel, surface),
                |surface: usize| SeatMessage::KeyboardKey { surface, key, pressed, modifier_state, keymap },
            ),
    {
        match compositor.surface_from_id(toplevel, surface) {
            Some(surface) => Some(
                Message::Seat(SeatMessage::KeyboardKey { surface, key, pressed, modifier_state, keymap }),
            ),
            None => None,
        }
    }

    /// A finger touched a surface.
    pub fn touch_down(
        compositor: &Compositor,
        toplevel: usize,
        surface: SurfaceId,
        id: u32,
        position: Vec2F,
    ) -> (message: Option<Message>)
        requires
            compositor.wf(),
            toplevel < compositor@.toplevels.len(),
        ensures
            message == seat_message(
                compositor@.item_surface(toplevel, surface),
                |surface: usize| SeatMessage::TouchDown { surface, id, position },
            ),
    {
        match compositor.surface_from_id(toplevel, surface) {
            Some(surface) => Some(
                Message::Seat(SeatMessage::TouchDown { surface, id, position }),
            ),
            None => None,
        }
    }

    /// A finger moved.
    pub fn touch_move(id: u32, position: Vec2F) -> (message: Message)
        ensures
            message == Message::Seat(SeatMessage::TouchMove { id, position }),
    {
        Message::Seat(SeatMessage::TouchMove { id, position })
    }

    /// A finger was lifted.
    pub fn touch_up(id: u32) -> (message: Message)
        ensures
            message == Message::Seat(SeatMessage::TouchUp { id }),
    {
        Message::Seat(SeatMessage::TouchUp { id })
    }

    /// The toplevel is to close.
    pub fn close_toplevel(toplevel: usize) -> (message: Message)
        ensures
            message == Message::CloseToplevel(toplevel),
    {
        Message::CloseToplevel(toplevel)
    }

    /// The toplevel may choose its size.
    pub fn resize_toplevel_to_app_request(toplevel: usize) -> (message: Message)
        ensures
            message == (Message::ResizeToplevel { toplevel, size: None }),
    {
        Message::ResizeToplevel { toplevel, size: None }
    }

    /// The toplevel is to have another size.
    pub fn request_toplevel_resize(toplevel: usize, new_size: Vector2<u32>) -> (message: Message)
        ensures
            message == (Message::ResizeToplevel { toplevel, size: Some(new_size) }),
    {
        Message::ResizeToplevel { toplevel, size: Some(new_size) }
    }

    /// The toplevel got or lost the focus.
    pub fn toplevel_focused(toplevel: usize, focused: bool) -> (message: Message)
        ensures
            message == (Message::SetToplevelVisualActive { toplevel, active: focused }),
    {
        Message::SetToplevelVisualActive { toplevel, active: focused }
    }

    /// The seat is to forget what is pressed.
    pub fn reset_input() -> (message: Message)
        ensures
            message == Message::Seat(SeatMessage::Reset),
    {
        Message::Seat(SeatMessage::Reset)
    }
}

} // verus!
