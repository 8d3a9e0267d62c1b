//! What comes of requests for windows and popups, and of what panel items are told.
use crate::client::{ClientView, Interface};
use crate::collections::Child;
use crate::compositor::Action;
use crate::error::WaylandError;
use crate::event::{Event, EventView};
use crate::message::{Message, SeatMessage};
use crate::panel_item_ui::{initial_size, PanelItemUi};
use crate::protocols::wl::surface::{CommitHandler, SurfaceRole, SurfaceView};
use crate::protocols::wl::surface_state::AttachedBuffer;
use crate::protocols::xdg::backend::{child_id, seat_message, ShellCall};
use crate::protocols::xdg::custody::Custody;
use crate::protocols::xdg::popup::Popup;
use crate::protocols::xdg::surface::{
    place_of, popup_state, xdg_surface_named, Surface as XdgSurface,
};
use crate::protocols::xdg::toplevel::ToplevelView;
use crate::scene::{is_linked, Scene};
use crate::surface_laws::commits_change_nothing_else;
use crate::types::{
    ChildState, Geometry, InputRegions, ObjectId, SurfaceId, SurfaceUpdateTarget, Vector2,
};
use vstd::prelude::*;

verus! {

/// Input for the toplevel part of a panel item reaches the surface of which the toplevel was
/// made, from the request on and over every commit of any surface, whatever the panel item.
pub proof fn windows_get_their_input(
    scene: Scene,
    client: ClientView,
    xdg_surface: usize,
    toplevel_id: ObjectId,
    children: Map<u64, Child>,
)
    requires
        scene.toplevels.len() <= usize::MAX,
        xdg_surface < scene.xdg_surfaces.len(),
        !client.objects.contains_key(toplevel_id.raw),
    ensures
        ({
            let made = scene.toplevel_requested(client, xdg_surface, toplevel_id).0;
            let toplevel = scene.toplevels.len() as usize;
            let surface = scene.xdg_surfaces[xdg_surface as int].wl_surface;
            &&& made.toplevels.len() == scene.toplevels.len() + 1
            &&& made.item_surface(toplevel, SurfaceId::Toplevel) == Some(surface)
            &&& made.with_panel_item(toplevel, children).item_surface(
                toplevel,
                SurfaceId::Toplevel,
            ) == Some(surface)
        }),
{
}

/// Commits leave every window with the surface that its input reaches.
pub proof fn commits_keep_window_input(
    scene: Scene,
    answers: Seq<bool>,
    surface: usize,
    toplevel: usize,
)
    requires
        is_linked(scene.asked(answers).surfaces),
        scene.asked(answers).links(),
        surface < scene.surfaces.len(),
        toplevel < scene.toplevels.len(),
    ensures
        scene.item_surface(toplevel, SurfaceId::Toplevel) == Some(
            scene.toplevels[toplevel as int].wl_surface,
        ),
        scene.asked(answers).committed(surface).item_surface(toplevel, SurfaceId::Toplevel)
            == Some(scene.toplevels[toplevel as int].wl_surface),
{
    commits_change_nothing_else(scene, answers, surface, toplevel as int);
}

/// Input for a child of a panel item reaches the surface under which the child was added, as
/// long as anything refers to the surface; input for an id that no child has reaches nothing.
pub proof fn children_get_their_input(scene: Scene, toplevel: usize, id: u64, surface: usize)
    ensures
        scene.item_surface(toplevel, SurfaceId::Child { id }) == Some(surface) <==> {
            &&& scene.toplevels[toplevel as int].mapped is Some
            &&& scene.toplevels[toplevel as int].mapped->0.contains_key(id)
            &&& scene.toplevels[toplevel as int].mapped->0[id].surface == surface
            &&& scene.surfaces[surface as int].alive
        },
{
}

/// Input is passed on to the seat where it is for a surface, and is dropped otherwise.
pub proof fn input_is_for_a_surface(surface: usize, message: spec_fn(usize) -> SeatMessage)
    ensures
        seat_message(None, message) is None,
        seat_message(Some(surface), message) == Some(Message::Seat(message(surface))),
{
}

/// A request for a toplevel succeeds exactly where its id is free and the surface has no role
/// or is a toplevel already. Then the client has the toplevel, which belongs to the surface and
/// the surface to it; it is not shown, and waits for the first commit. Nothing else changes.
pub proof fn toplevels_are_made_of_free_surfaces(
    scene: Scene,
    client: ClientView,
    xdg_surface: usize,
    toplevel_id: ObjectId,
    other: int,
)
    requires
        scene.links(),
        scene.toplevels.len() <= usize::MAX,
        xdg_surface < scene.xdg_surfaces.len(),
    ensures
        ({
            let (made, after, answer) = scene.toplevel_requested(client, xdg_surface, toplevel_id);
            let w = scene.xdg_surfaces[xdg_surface as int].wl_surface as int;
            let s = scene.surfaces[w];
            let a = made.surfaces[w];
            let toplevel = scene.toplevels.len() as usize;
            let free = !client.objects.contains_key(toplevel_id.raw);
            let fits = s.role is None || s.role == Some(SurfaceRole::XdgToplevel);
            &&& answer is Ok <==> free && fits
            &&& !free ==> answer == Err::<(), _>(WaylandError::FailedToInsertObject) && made
                == scene && after == client
            &&& free && !fits ==> answer == Err::<(), _>(
                WaylandError::Fatal {
                    object_id: s.id,
                    code: 2,
                    message: "Surface has an incomparible role",
                },
            ) && made.surfaces == scene.surfaces
            &&& free ==> {
                &&& after.objects == client.objects.insert(toplevel_id.raw, Interface::Toplevel)
                &&& after.serial == client.serial
                &&& after.sent == client.sent
                &&& made.toplevels.len() == scene.toplevels.len() + 1
                &&& made.toplevels.drop_last() == scene.toplevels
                &&& ({
                    let t = made.toplevels.last();
                    &&& t.id == toplevel_id
                    &&& t.wl_surface == w
                    &&& t.xdg_surface == xdg_surface
                    &&& t.alive
                    &&& t.mapped is None
                    &&& t.last_committed_res is None
                    &&& t.title is None
                    &&& t.app_id is None
                })
            }
            &&& answer is Ok ==> {
                &&& a.role == Some(SurfaceRole::XdgToplevel)
                &&& a.toplevel == Some(toplevel)
                &&& a.on_commit_handlers == s.on_commit_handlers.push(
                    CommitHandler::Toplevel { toplevel, first_commit: true },
                )
                &&& a == (SurfaceView {
                    role: a.role,
                    toplevel: a.toplevel,
                    on_commit_handlers: a.on_commit_handlers,
                    ..s
                })
            }
            &&& 0 <= other < scene.surfaces.len() && other != w ==> made.surfaces[other]
                == scene.surfaces[other]
            &&& made.surfaces.len() == scene.surfaces.len()
            &&& made.xdg_surfaces == scene.xdg_surfaces
            &&& made.popups == scene.popups
            &&& made.actions == scene.actions
        }),
{
    let (made, after, answer) = scene.toplevel_requested(client, xdg_surface, toplevel_id);
    let w = scene.xdg_surfaces[xdg_surface as int].wl_surface as int;
    let s = scene.surfaces[w];
    let a = made.surfaces[w];
    assert(w < scene.surfaces.len());
    if !client.objects.contains_key(toplevel_id.raw) {
        assert(made.toplevels.drop_last() =~= scene.toplevels);
    }
    if answer is Ok {
        assert(a =~= (SurfaceView {
            role: a.role,
            toplevel: a.toplevel,
            on_commit_handlers: a.on_commit_handlers,
            ..s
        }));
    }
}

/// A client has an `xdg_surface` under an id exactly where it has an object of that kind there
/// and one was made under that id; it is the one that was made last.
pub proof fn newest_surface_is_found(client: ClientView, all: Seq<XdgSurface>, id: ObjectId)
    requires
        all.len() <= usize::MAX,
    ensures
        match xdg_surface_named(client, all, id) {
            Some(place) => {
                &&& client.objects.contains_key(id.raw)
                &&& client.objects[id.raw] == Interface::XdgSurface
                &&& place < all.len()
                &&& all[place as int].id == id
                &&& forall|i: int| place < i < all.len() ==> (#[trigger] all[i]).id != id
            },
            None => !client.objects.contains_key(id.raw) || client.objects[id.raw]
                != Interface::XdgSurface || forall|i: int|
                0 <= i < all.len() ==> (#[trigger] all[i]).id != id,
        },
{
    lemma_newest(all, id);
}

proof fn lemma_newest(all: Seq<XdgSurface>, id: ObjectId)
    requires
        all.len() <= usize::MAX,
    ensures
        match place_of(all, id) {
            Some(place) => {
                &&& place < all.len()
                &&& all[place as int].id == id
                &&& forall|i: int| place < i < all.len() ==> (#[trigger] all[i]).id != id
            },
            None => forall|i: int| 0 <= i < all.len() ==> (#[trigger] all[i]).id != id,
        },
    decreases all.len(),
{
    if all.len() > 0 && all.last().id != id {
        let rest = all.drop_last();
        lemma_newest(rest, id);
        assert forall|i: int| 0 <= i < all.len() && (place_of(all, id) matches Some(p) ==> p
            < i) implies (#[trigger] all[i]).id != id by {
            if i < rest.len() {
                assert(rest[i] == all[i]);
            }
        }
    }
}

/// What a request for a popup answers. It succeeds exactly where the surface has no role or is a
/// popup already, the parent is an `xdg_surface` of the client, and the id is free. Errors come
/// in this order.
pub proof fn popups_need_a_parent(
    scene: Scene,
    client: ClientView,
    xdg_surface: usize,
    sender_id: ObjectId,
    popup_id: ObjectId,
    parent: Option<ObjectId>,
    geometry: Geometry,
    child: u64,
)
    requires
        scene.links(),
        xdg_surface < scene.xdg_surfaces.len(),
        scene.xdg_surfaces.len() <= usize::MAX,
    ensures
        ({
            let (made, after, answer) = scene.popup_requested(
                client,
                xdg_surface,
                sender_id,
                popup_id,
                parent,
                geometry,
                child,
            );
            let s = scene.surfaces[scene.xdg_surfaces[xdg_surface as int].wl_surface as int];
            let fits = s.role is None || s.role == Some(SurfaceRole::XdgPopup);
            let known = parent is Some && xdg_surface_named(
                client,
                scene.xdg_surfaces,
                parent->0,
            ) is Some;
            let free = !client.objects.contains_key(popup_id.raw);
            &&& answer is Ok <==> fits && known && free
            &&& answer is Err ==> after == client && made.popups == scene.popups
            &&& !fits ==> made == scene && answer == Err::<(), _>(
                WaylandError::Fatal {
                    object_id: s.id,
                    code: 2,
                    message: "Surface has an incomparible role",
                },
            )
            &&& fits && parent is None ==> answer == Err::<(), _>(
                WaylandError::Fatal {
                    object_id: popup_id,
                    code: 3,
                    message: "Parent surface does not have an XDG role",
                },
            )
            &&& fits && parent is Some && !known ==> answer == Err::<(), _>(
                WaylandError::Fatal {
                    object_id: popup_id,
                    code: 3,
                    message: "Parent surface does not exist",
                },
            )
            &&& fits && known && !free ==> answer == Err::<(), _>(
                WaylandError::FailedToInsertObject,
            )
        }),
{
}

/// A popup that was made belongs to the toplevel of its parent, is alive, has the place that was
/// asked for, and the client is told of that place and then asked to answer the configuration.
/// The surface is named as a child unless it had a name.
pub proof fn popups_join_their_parent(
    scene: Scene,
    client: ClientView,
    xdg_surface: usize,
    sender_id: ObjectId,
    popup_id: ObjectId,
    parent: ObjectId,
    geometry: Geometry,
    child: u64,
)
    requires
        scene.links(),
        xdg_surface < scene.xdg_surfaces.len(),
        scene.xdg_surfaces.len() <= usize::MAX,
        scene.popups.len() <= usize::MAX,
        scene.popup_requested(
            client,
            xdg_surface,
            sender_id,
            popup_id,
            Some(parent),
            geometry,
            child,
        ).2 is Ok,
    ensures
        ({
            let (made, after, _) = scene.popup_requested(
                client,
                xdg_surface,
                sender_id,
                popup_id,
                Some(parent),
                geometry,
                child,
            );
            let x = scene.xdg_surfaces[xdg_surface as int];
            let place = xdg_surface_named(client, scene.xdg_surfaces, parent)->0;
            let beside = scene.surfaces[scene.xdg_surfaces[place as int].wl_surface as int];
            let s = scene.surfaces[x.wl_surface as int];
            let a = made.surfaces[x.wl_surface as int];
            &&& a.toplevel == beside.toplevel
            &&& a.role == Some(SurfaceRole::XdgPopup)
            &&& a.surface_id == match s.surface_id {
                Some(first) => Some(first),
                None => Some(SurfaceUpdateTarget::Child { id: child }),
            }
            &&& a.parent == s.parent && a.children == s.children && a.state == s.state
            &&& made.popups == scene.popups.push(
                Popup {
                    version: x.version,
                    surface: xdg_surface,
                    geometry,
                    id: popup_id,
                    alive: true,
                },
            )
            &&& made.toplevels == scene.toplevels
            &&& made.xdg_surfaces == scene.xdg_surfaces
            &&& made.actions == scene.actions
            &&& made.surfaces.len() == scene.surfaces.len()
            &&& forall|i: int|
                0 <= i < scene.surfaces.len() && i != x.wl_surface ==> #[trigger] made.surfaces[i]
                    == scene.surfaces[i]
            &&& after.objects == client.objects.insert(popup_id.raw, Interface::Popup)
            &&& after.serial == if client.serial == u32::MAX {
                0u32
            } else {
                (client.serial + 1) as u32
            }
            &&& after.sent == client.sent.push(
                EventView::Plain(
                    Event::PopupConfigure {
                        popup: popup_id,
                        x: geometry.origin.x,
                        y: geometry.origin.y,
                        width: geometry.size.x as i32,
                        height: geometry.size.y as i32,
                    },
                ),
            ).push(
                EventView::Plain(
                    Event::XdgSurfaceConfigure { surface: sender_id, serial: client.serial },
                ),
            )
        }),
{
    newest_surface_is_found(client, scene.xdg_surfaces, parent);
    let (made, after, _) = scene.popup_requested(
        client,
        xdg_surface,
        sender_id,
        popup_id,
        Some(parent),
        geometry,
        child,
    );
    let x = scene.xdg_surfaces[xdg_surface as int];
    assert(x.wl_surface < scene.surfaces.len());
    let first = EventView::Plain(
        Event::PopupConfigure {
            popup: popup_id,
            x: geometry.origin.x,
            y: geometry.origin.y,
            width: geometry.size.x as i32,
            height: geometry.size.y as i32,
        },
    );
    let second = EventView::Plain(
        Event::XdgSurfaceConfigure { surface: sender_id, serial: client.serial },
    );
    assert(after.sent =~= client.sent.push(first).push(second));
}

/// A popup that is given another place is moved on the panel item of its surface, where it has
/// one, and nothing else of it changes.
pub proof fn popups_move(scene: Scene, popup: usize, geometry: Geometry, other: int)
    requires
        scene.links(),
        popup < scene.popups.len(),
    ensures
        ({
            let after = scene.repositioned(popup, geometry);
            let p = scene.popups[popup as int];
            let w = scene.xdg_surfaces[p.surface as int].wl_surface as int;
            &&& after.popups[popup as int] == (Popup { geometry, ..p })
            &&& after.popups.len() == scene.popups.len()
            &&& 0 <= other < scene.popups.len() && other != popup ==> after.popups[other]
                == scene.popups[other]
            &&& after.surfaces == scene.surfaces
            &&& after.xdg_surfaces == scene.xdg_surfaces
            &&& scene.panel_item(w) matches Some(t) ==> {
                scene.surfaces[w].surface_id matches Some(SurfaceUpdateTarget::Child { id }) ==> {
                    let old = scene.toplevels[t as int].mapped->0;
                    let new = after.toplevels[t as int].mapped->0;
                    &&& after.actions == scene.actions.push(
                        Action::Shell {
                            toplevel: t,
                            call: ShellCall::MoveChild { id, geometry },
                        },
                    )
                    &&& new.dom() == old.dom()
                    &&& old.contains_key(id) ==> new[id].info.geometry == geometry
                    &&& old.contains_key(id) ==> new[id].surface == old[id].surface
                }
            }
        }),
{
    let after = scene.repositioned(popup, geometry);
    let p = scene.popups[popup as int];
    let w = scene.xdg_surfaces[p.surface as int].wl_surface as int;
    if let Some(t) = scene.panel_item(w) {
        if let Some(SurfaceUpdateTarget::Child { id }) = scene.surfaces[w].surface_id {
            assert(p.surface < scene.xdg_surfaces.len());
            assert(w < scene.surfaces.len());
            assert(t < scene.toplevels.len());
            assert(after.toplevels[t as int].mapped->0.dom()
                =~= scene.toplevels[t as int].mapped->0.dom());
        }
    }
}

/// A popup to which nothing refers any more is gone from the panel item of its surface, of which
/// the shell is told.
pub proof fn popups_leave(scene: Scene, popup: usize, other: int)
    requires
        scene.links(),
        popup < scene.popups.len(),
    ensures
        ({
            let after = scene.popup_released(popup);
            let p = scene.popups[popup as int];
            let w = scene.xdg_surfaces[p.surface as int].wl_surface as int;
            &&& after.popups[popup as int] == (Popup { alive: false, ..p })
            &&& after.popups.len() == scene.popups.len()
            &&& 0 <= other < scene.popups.len() && other != popup ==> after.popups[other]
                == scene.popups[other]
            &&& after.surfaces == scene.surfaces
            &&& after.xdg_surfaces == scene.xdg_surfaces
            &&& scene.panel_item(w) matches Some(t) ==> {
                scene.surfaces[w].surface_id matches Some(SurfaceUpdateTarget::Child { id }) ==> {
                    &&& after.actions == scene.actions.push(
                        Action::Shell { toplevel: t, call: ShellCall::DestroyChild { id } },
                    )
                    &&& after.toplevels[t as int].mapped->0
                        == scene.toplevels[t as int].mapped->0.remove(id)
                    &&& after.item_surface(t, SurfaceId::Child { id }) is None
                }
            }
        }),
{
    let p = scene.popups[popup as int];
    let w = scene.xdg_surfaces[p.surface as int].wl_surface as int;
    assert(p.surface < scene.xdg_surfaces.len());
    assert(w < scene.surfaces.len());
}

/// Panel items know a surface as a child by the id in its name, and by no other name.
pub proof fn children_are_known_by_name(name: Option<SurfaceUpdateTarget>, id: u64)
    ensures
        child_id(name) == Some(id) <==> name == Some(SurfaceUpdateTarget::Child { id }),
{
}

/// Whether nothing but the panel item of one toplevel, and what is to be done, differs.
pub open spec fn same_but_panel_item(a: Scene, b: Scene, toplevel: usize) -> bool {
    &&& a.surfaces == b.surfaces
    &&& a.xdg_surfaces == b.xdg_surfaces
    &&& a.popups == b.popups
    &&& a.toplevels.len() == b.toplevels.len()
    &&& forall|i: int|
        0 <= i < a.toplevels.len() && i != toplevel ==> #[trigger] b.toplevels[i] == a.toplevels[i]
    &&& b.toplevels[toplevel as int] == (ToplevelView {
        mapped: b.toplevels[toplevel as int].mapped,
        ..a.toplevels[toplevel as int]
    })
}

/// A child that is added has the state that it was added with, and the shell is told of that
/// state. A surface that is no child is left alone.
pub proof fn children_are_added_as_they_are(
    scene: Scene,
    toplevel: usize,
    surface: usize,
    info: ChildState,
)
    requires
        toplevel < scene.toplevels.len(),
        scene.toplevels[toplevel as int].mapped is Some,
    ensures
        ({
            let after = scene.with_child(toplevel, surface, info);
            match scene.surfaces[surface as int].surface_id {
                Some(SurfaceUpdateTarget::Child { id }) => {
                    let new = after.toplevels[toplevel as int].mapped->0;
                    &&& new.contains_key(id)
                    &&& new[id].surface == surface
                    &&& new[id].info == info
                    &&& after.actions == scene.actions.push(
                        Action::Shell { toplevel, call: ShellCall::CreateChild { info } },
                    )
                    &&& same_but_panel_item(scene, after, toplevel)
                },
                _ => after == scene,
            }
        }),
{
    let after = scene.with_child(toplevel, surface, info);
    if child_id(scene.surfaces[surface as int].surface_id) is Some {
        let t = after.toplevels[toplevel as int];
        assert(t =~= (ToplevelView { mapped: t.mapped, ..scene.toplevels[toplevel as int] }));
    }
}

/// A child that is moved is where it was moved to, and on the level where it was; one that is put
/// on another level is where it was. The shell is told where it is.
pub proof fn children_move_and_rise(
    scene: Scene,
    toplevel: usize,
    surface: int,
    id: u64,
    geometry: Geometry,
    z_order: i32,
)
    requires
        toplevel < scene.toplevels.len(),
        scene.panel_item(surface) == Some(toplevel),
        scene.surfaces[surface].surface_id == Some(SurfaceUpdateTarget::Child { id }),
        scene.toplevels[toplevel as int].mapped->0.contains_key(id),
    ensures
        ({
            let old = scene.toplevels[toplevel as int].mapped->0[id];
            let moved = scene.with_moved_child(surface, geometry);
            let risen = scene.with_child_level(surface, z_order);
            let m = moved.toplevels[toplevel as int].mapped->0[id];
            let r = risen.toplevels[toplevel as int].mapped->0[id];
            &&& m.surface == old.surface && r.surface == old.surface
            &&& m.info == (ChildState { geometry, ..old.info })
            &&& r.info == (ChildState { z_order, ..old.info })
            &&& moved.actions == scene.actions.push(
                Action::Shell { toplevel, call: ShellCall::MoveChild { id, geometry } },
            )
            &&& risen.actions == scene.actions.push(
                Action::Shell {
                    toplevel,
                    call: ShellCall::MoveChild { id, geometry: old.info.geometry },
                },
            )
            &&& same_but_panel_item(scene, moved, toplevel)
            &&& same_but_panel_item(scene, risen, toplevel)
        }),
{
    let moved = scene.with_moved_child(surface, geometry);
    let risen = scene.with_child_level(surface, z_order);
    let t = scene.toplevels[toplevel as int];
    let m = moved.toplevels[toplevel as int];
    let r = risen.toplevels[toplevel as int];
    assert(m =~= (ToplevelView { mapped: m.mapped, ..t }));
    assert(r =~= (ToplevelView { mapped: r.mapped, ..t }));
}

/// Without a panel item, or for a surface that is no child, nothing is moved, put on another
/// level or removed, and nobody is told anything.
pub proof fn only_children_move(scene: Scene, surface: int, geometry: Geometry, z_order: i32)
    requires
        scene.panel_item(surface) is None || !(scene.surfaces[surface].surface_id matches Some(
            SurfaceUpdateTarget::Child { .. },
        )),
    ensures
        scene.with_moved_child(surface, geometry) == scene,
        scene.with_child_level(surface, z_order) == scene,
        scene.without_child(surface) == scene,
{
}

/// The shell is told of a child that moves or goes even where it was never added, but of a new
/// level only where it was.
pub proof fn unknown_children_get_no_level(
    scene: Scene,
    toplevel: usize,
    surface: int,
    id: u64,
    geometry: Geometry,
    z_order: i32,
)
    requires
        toplevel < scene.toplevels.len(),
        scene.panel_item(surface) == Some(toplevel),
        scene.surfaces[surface].surface_id == Some(SurfaceUpdateTarget::Child { id }),
        !scene.toplevels[toplevel as int].mapped->0.contains_key(id),
    ensures
        scene.with_moved_child(surface, geometry).actions == scene.actions.push(
            Action::Shell { toplevel, call: ShellCall::MoveChild { id, geometry } },
        ),
        scene.with_moved_child(surface, geometry).toplevels[toplevel as int].mapped
            == scene.toplevels[toplevel as int].mapped,
        scene.without_child(surface).actions == scene.actions.push(
            Action::Shell { toplevel, call: ShellCall::DestroyChild { id } },
        ),
        scene.with_child_level(surface, z_order) == scene,
{
}

/// A new panel item has the children that it is given and takes the place of the old one.
pub proof fn panel_items_take_over(scene: Scene, toplevel: usize, children: Map<u64, Child>)
    requires
        toplevel < scene.toplevels.len(),
    ensures
        ({
            let after = scene.with_panel_item(toplevel, children);
            &&& after.toplevels[toplevel as int].mapped == Some(children)
            &&& after.actions == scene.actions
            &&& same_but_panel_item(scene, after, toplevel)
        }),
{
    let t = scene.with_panel_item(toplevel, children).toplevels[toplevel as int];
    assert(t =~= (ToplevelView { mapped: t.mapped, ..scene.toplevels[toplevel as int] }));
}

/// What a commit of a window that has a panel item tells the shell of its size: the size of the
/// current buffer, in pixels, unless it is the one that was noted last; nothing without a buffer.
pub proof fn new_sizes_are_told(
    scene: Scene,
    surface: usize,
    toplevel: usize,
    buffer: AttachedBuffer,
)
    requires
        scene.toplevels[toplevel as int].alive,
        scene.toplevels[toplevel as int].mapped is Some,
    ensures
        ({
            let handler = CommitHandler::Toplevel { toplevel, first_commit: false };
            let (after, kept) = scene.handled(surface, handler);
            let current = scene.surfaces[surface as int].state.current.buffer;
            let noted = scene.toplevels[toplevel as int].last_committed_res;
            &&& kept == Some(handler)
            &&& current is None ==> after == scene
            &&& current == Some(buffer) && noted == Some(buffer.size) ==> after == scene
            &&& current == Some(buffer) && noted != Some(buffer.size) && buffer.size.x <= u32::MAX
                && buffer.size.y <= u32::MAX ==> after.actions.len() == scene.actions.len() + 1
                && after.actions.drop_last() == scene.actions && (
            after.actions.last() matches Action::Shell {
                toplevel: t,
                call: ShellCall::ToplevelResized { size },
            } && t == toplevel && size.x == buffer.size.x && size.y == buffer.size.y)
            &&& after.toplevels == scene.toplevels
        }),
{
    let handler = CommitHandler::Toplevel { toplevel, first_commit: false };
    let (after, kept) = scene.handled(surface, handler);
    if after.actions.len() > scene.actions.len() {
        assert(after.actions.drop_last() =~= scene.actions);
    }
}

/// A shell that takes the place of an acceptor's has the size of what the window shows, or of
/// one pixel where it shows nothing.
pub proof fn shells_have_the_size_of_the_window(scene: Scene, toplevel: usize, buffer: AttachedBuffer)
    ensures
        ({
            let s = scene.surfaces[scene.toplevels[toplevel as int].wl_surface as int];
            let size = initial_size(scene.shown_size(toplevel));
            &&& s.state.current.buffer == Some(buffer) ==> size == buffer.size
            &&& s.state.current.buffer is None ==> size == (Vector2 { x: 1usize, y: 1usize })
        }),
{
}

/// A toplevel returns from its acceptor exactly where it was held and both the panel item and the
/// seat are there; then to the place that the acceptor had given it.
pub proof fn toplevels_return_to_their_place<P>(
    toplevel: usize,
    spatial: P,
    item_alive: bool,
    seat_alive: bool,
)
    ensures
        (Custody::Held { toplevel, spatial }).returning(item_alive, seat_alive) is Some
            <==> item_alive && seat_alive,
        (Custody::Held { toplevel, spatial }).returning(true, true) == Some((toplevel, spatial)),
        Custody::<P>::Ended.returning(item_alive, seat_alive) is None,
{
}

/// A new shell is in no acceptor, knows of none and points at none.
pub proof fn shells_start_alone<A, S>(auto_insert: bool)
    ensures
        !PanelItemUi::<A, S>::initial(auto_insert).query.replaced,
        PanelItemUi::<A, S>::initial(auto_insert).query.acceptor is None,
        PanelItemUi::<A, S>::initial(auto_insert).query.auto_insert == auto_insert,
        !PanelItemUi::<A, S>::initial(auto_insert).showing_indicator,
{
}

/// A popup is a child of its parent where the parent is one, and of the toplevel otherwise, one
/// level above, and takes input everywhere. A surface that is no child is no such popup, nor is
/// one beside a surface without a name.
pub proof fn popups_are_children_of_their_parent(
    id: u64,
    other: u64,
    geometry: Geometry,
    parent: Option<SurfaceUpdateTarget>,
    name: Option<SurfaceUpdateTarget>,
)
    ensures
        ({
            let own = Some(SurfaceUpdateTarget::Child { id });
            let state = ChildState {
                id,
                parent: SurfaceId::Toplevel,
                geometry,
                z_order: 1,
                input_regions: InputRegions::Whole,
            };
            &&& popup_state(own, Some(SurfaceUpdateTarget::Toplevel), geometry) == Some(state)
            &&& popup_state(own, Some(SurfaceUpdateTarget::Cursor), geometry) == Some(state)
            &&& popup_state(own, Some(SurfaceUpdateTarget::Child { id: other }), geometry) == Some(
                ChildState { parent: SurfaceId::Child { id: other }, ..state },
            )
            &&& popup_state(own, None, geometry) is None
            &&& popup_state(None, parent, geometry) is None
            &&& !(name matches Some(SurfaceUpdateTarget::Child { .. })) ==> popup_state(
                name,
                parent,
                geometry,
            ) is None
        }),
{
}

} // verus!
