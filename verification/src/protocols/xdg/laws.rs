//! What holds of windows, popups and the children of panel items together.
use crate::client::ClientView;
use crate::error::WaylandError;
use crate::protocols::wl::surface::SurfaceRole;
use crate::protocols::xdg::backend::child_id;
use crate::protocols::xdg::surface::ALREADY_CONSTRUCTED;
use crate::scene::Scene;
use crate::types::{ChildState, Geometry, ObjectId, SurfaceId};
use vstd::prelude::*;

verus! {

/// A surface that became a toplevel never becomes a popup: every such request is answered
/// with a protocol error and changes nothing.
pub proof fn toplevels_are_no_popups(
    scene: Scene,
    client: ClientView,
    surface: usize,
    toplevel_id: ObjectId,
    sender_id: ObjectId,
    popup_id: ObjectId,
    parent: Option<ObjectId>,
    geometry: Geometry,
    child: u64,
)
    requires
        scene.links(),
        surface < scene.xdg_surfaces.len(),
        scene.toplevel_requested(client, surface, toplevel_id).2 is Ok,
    ensures
        ({
            let (made, after, _) = scene.toplevel_requested(client, surface, toplevel_id);
            let w = scene.xdg_surfaces[surface as int].wl_surface;
            made.popup_requested(after, surface, sender_id, popup_id, parent, geometry, child) == (
                made,
                after,
                Err::<(), _>(
                    WaylandError::Fatal {
                        object_id: scene.surfaces[w as int].id,
                        code: ALREADY_CONSTRUCTED,
                        message: "Surface has an incomparible role",
                    },
                ),
            )
        }),
{
    let w = scene.xdg_surfaces[surface as int].wl_surface;
    assert(w < scene.surfaces.len());
}

/// A surface that was given the role of a popup never becomes a toplevel: every such request
/// under a free id is answered with a protocol error.
pub proof fn popups_are_no_toplevels(
    scene: Scene,
    client: ClientView,
    surface: usize,
    toplevel_id: ObjectId,
)
    requires
        scene.links(),
        surface < scene.xdg_surfaces.len(),
        !client.objects.contains_key(toplevel_id.raw),
        scene.surfaces[scene.xdg_surfaces[surface as int].wl_surface as int].role == Some(
            SurfaceRole::XdgPopup,
        ),
    ensures
        scene.toplevel_requested(client, surface, toplevel_id).2 == Err::<(), _>(
            WaylandError::Fatal {
                object_id: scene.surfaces[scene.xdg_surfaces[surface as int].wl_surface as int].id,
                code: ALREADY_CONSTRUCTED,
                message: "Surface has an incomparible role",
            },
        ),
        scene.toplevel_requested(client, surface, toplevel_id).0.surfaces == scene.surfaces,
{
}

/// A request for a popup leaves the surface with the role of a popup, whatever else is wrong
/// with it, unless it had another role before.
pub proof fn popup_requests_give_the_role(
    scene: Scene,
    client: ClientView,
    surface: usize,
    sender_id: ObjectId,
    popup_id: ObjectId,
    parent: Option<ObjectId>,
    geometry: Geometry,
    child: u64,
)
    requires
        scene.links(),
        surface < scene.xdg_surfaces.len(),
    ensures
        ({
            let w = scene.xdg_surfaces[surface as int].wl_surface as int;
            let after = scene.popup_requested(
                client,
                surface,
                sender_id,
                popup_id,
                parent,
                geometry,
                child,
            ).0;
            after.surfaces[w].role == match scene.surfaces[w].role {
                Some(role) => Some(role),
                None => Some(SurfaceRole::XdgPopup),
            }
        }),
{
    let w = scene.xdg_surfaces[surface as int].wl_surface;
    assert(w < scene.surfaces.len());
}

/// Input for a child that was added to a panel item reaches the child's surface, as long as
/// anything refers to it; once the child was removed, it reaches nothing.
pub proof fn added_children_get_input(
    scene: Scene,
    toplevel: usize,
    surface: usize,
    info: ChildState,
)
    requires
        scene.links(),
        toplevel < scene.toplevels.len(),
        surface < scene.surfaces.len(),
        scene.panel_item(surface as int) == Some(toplevel),
        child_id(scene.surfaces[surface as int].surface_id) is Some,
    ensures
        ({
            let id = child_id(scene.surfaces[surface as int].surface_id)->0;
            let added = scene.with_child(toplevel, surface, info);
            let removed = added.without_child(surface as int);
            &&& added.item_surface(toplevel, SurfaceId::Child { id }) == (
            if scene.surfaces[surface as int].alive {
                Some(surface)
            } else {
                None
            })
            &&& removed.item_surface(toplevel, SurfaceId::Child { id }) is None
        }),
{
}

/// Adding, moving or removing one child leaves every other child of the panel item alone.
pub proof fn children_are_independent(
    scene: Scene,
    toplevel: usize,
    surface: usize,
    info: ChildState,
    geometry: Geometry,
    other: u64,
)
    requires
        scene.links(),
        toplevel < scene.toplevels.len(),
        surface < scene.surfaces.len(),
        scene.panel_item(surface as int) == Some(toplevel),
        child_id(scene.surfaces[surface as int].surface_id) != Some(other),
    ensures
        ({
            let children = scene.toplevels[toplevel as int].mapped->0;
            let added = scene.with_child(toplevel, surface, info).toplevels[toplevel as int];
            let moved = scene.with_moved_child(
                surface as int,
                geometry,
            ).toplevels[toplevel as int];
            let removed = scene.without_child(surface as int).toplevels[toplevel as int];
            &&& added.mapped->0.contains_key(other) == children.contains_key(other)
            &&& added.mapped->0[other] == children[other]
            &&& moved.mapped->0.contains_key(other) == children.contains_key(other)
            &&& moved.mapped->0[other] == children[other]
            &&& removed.mapped->0.contains_key(other) == children.contains_key(other)
            &&& removed.mapped->0[other] == children[other]
        }),
{
}

} // verus!
