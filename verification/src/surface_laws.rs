//! What clients see of their surfaces, from what they ask for to what is shown.
use crate::commit_laws::{
    applied, handlers_run, lemma_all_handled, lemma_handlers_run, lemma_order_child,
    updates_reach_waiting_surfaces,
};
use crate::compositor::Action;
use crate::error::WaylandError;
use crate::protocols::wl::surface::{
    CommitFilter, CommitHandler, SurfaceRole, SurfaceView, UpdatedHandler,
};
use crate::protocols::wl::surface_state::{AttachedBuffer, CommitView, StateView};
use crate::protocols::xdg::backend::ShellCall;
use crate::scene::{
    are_answers, child_order, ends, handler_links, is_linked, lemma_does_not_wait, lemma_relinked,
    lemma_update_ends, sync_order, update_order, waits, waits_for_itself, Scene,
};
use crate::types::{ObjectId, SurfaceUpdateTarget};
use vstd::prelude::*;

verus! {

/// The actions that one scene has behind those of another.
pub open spec fn added_actions(before: Scene, after: Scene) -> Seq<Action> {
    after.actions.skip(before.actions.len() as int)
}

/// The call that shows a buffer on the part of a panel item that a surface is: where the
/// buffer has pixels that let through what is behind them, it is not opaque.
pub open spec fn buffer_call(
    toplevel: usize,
    target: SurfaceUpdateTarget,
    buffer: AttachedBuffer,
) -> Action {
    Action::Shell {
        toplevel,
        call: ShellCall::UpdateSurfaceDmatex {
            target,
            buffer: buffer.id,
            opaque: if buffer.transparent {
                false
            } else {
                true
            },
        },
    }
}

/// Whether a surface has a buffer, a name and a live toplevel with a panel item.
pub open spec fn is_shown(
    scene: Scene,
    surface: int,
    toplevel: usize,
    target: SurfaceUpdateTarget,
    buffer: AttachedBuffer,
) -> bool {
    let s = scene.surfaces[surface];
    &&& s.state.current.buffer == Some(buffer)
    &&& s.surface_id == Some(target)
    &&& s.toplevel == Some(toplevel)
    &&& scene.toplevels[toplevel as int].alive
    &&& scene.toplevels[toplevel as int].mapped is Some
}

/// Whether an action shows a buffer.
spec fn shows(action: Action) -> bool {
    match action {
        Action::Shell { call: ShellCall::UpdateSurfaceDmatex { .. }, .. } => true,
        _ => false,
    }
}

/// Whether a scene has more actions than another, none of the new ones showing a buffer.
spec fn shows_nothing_new(before: Scene, after: Scene) -> bool {
    &&& before.actions.len() <= after.actions.len()
    &&& forall|i: int|
        0 <= i < before.actions.len() ==> #[trigger] after.actions[i] == before.actions[i]
    &&& forall|i: int|
        before.actions.len() <= i < after.actions.len() ==> !shows(#[trigger] after.actions[i])
}

proof fn lemma_handlers_show_nothing(scene: Scene, surface: usize, handlers: Seq<CommitHandler>)
    ensures
        shows_nothing_new(scene, scene.all_handled(surface, handlers).0),
    decreases handlers.len(),
{
    if handlers.len() > 0 {
        lemma_handlers_show_nothing(scene, surface, handlers.drop_last());
        let here = scene.all_handled(surface, handlers.drop_last()).0;
        let after = here.handled(surface, handlers.last()).0;
        assert(shows_nothing_new(here, after));
    }
}

/// What is shown for a list of surfaces is what each of them shows in the end.
proof fn lemma_order_shows_all(scene: Scene, order: Seq<int>, x: int)
    requires
        order.contains(x),
        0 <= x < scene.surfaces.len(),
        scene.surfaces[x].on_updated_current_state_handlers.len() > 0,
    ensures
        scene.refreshed(order).buffer_action(x) matches Some(action)
            ==> scene.order_actions(order).contains(action),
    decreases order.len(),
{
    let k = choose|k: int| 0 <= k < order.len() && order[k] == x;
    let rest = order.drop_last();
    let first = scene.order_actions(rest);
    let last = scene.refreshed(order).updated_actions(order.last());
    assert(scene.order_actions(order) == first + last);
    if let Some(action) = scene.refreshed(order).buffer_action(x) {
        if order.last() == x {
            assert(last[0] == action);
            assert((first + last)[first.len() as int] == action);
        } else {
            assert(rest[k] == x);
            assert(rest.contains(x));
            lemma_order_shows_all(scene, rest, x);
            assert(scene.refreshed(rest).surfaces[x] == scene.refreshed(order).surfaces[x]);
            let i = choose|i: int| 0 <= i < first.len() && first[i] == action;
            assert((first + last)[i] == action);
        }
    }
}

proof fn lemma_order_shows_no_more(scene: Scene, order: Seq<int>, i: int) -> (x: int)
    requires
        0 <= i < scene.order_actions(order).len(),
    ensures
        order.contains(x),
        scene.refreshed(order).buffer_action(x) == Some(scene.order_actions(order)[i])
            || !(0 <= x < scene.surfaces.len()),
    decreases order.len(),
{
    let rest = order.drop_last();
    let first = scene.order_actions(rest);
    let last = scene.refreshed(order).updated_actions(order.last());
    assert(scene.order_actions(order) == first + last);
    if i < first.len() {
        let x = lemma_order_shows_no_more(scene, rest, i);
        let k = choose|k: int| 0 <= k < rest.len() && rest[k] == x;
        assert(order[k] == x);
        if 0 <= x < scene.surfaces.len() {
            assert(scene.refreshed(rest).surfaces[x] == scene.refreshed(order).surfaces[x]);
        }
        x
    } else {
        assert(order[order.len() - 1] == order.last());
        order.last()
    }
}

/// The commit of a surface that does not wait shows the buffer that each updated surface has
/// then: under the name of the surface, on the panel item of its toplevel, and as opaque exactly
/// where the buffer is not transparent. It shows nothing else.
pub proof fn commits_show_current_buffers(scene: Scene, surface: usize)
    requires
        is_linked(scene.surfaces),
        scene.links(),
        surface < scene.surfaces.len(),
        !scene.surfaces[surface as int].requires_sync(),
    ensures
        ({
            let after = scene.committed(surface);
            let order = update_order(scene.surfaces, surface as int);
            &&& order.contains(surface as int)
            &&& scene.actions.len() <= after.actions.len()
            &&& forall|i: int|
                0 <= i < scene.actions.len() ==> #[trigger] after.actions[i] == scene.actions[i]
            &&& forall|
                x: int,
                toplevel: usize,
                target: SurfaceUpdateTarget,
                buffer: AttachedBuffer,
            |
                order.contains(x) && #[trigger] is_shown(after, x, toplevel, target, buffer)
                    && after.surfaces[x].on_updated_current_state_handlers.len() > 0
                    ==> added_actions(scene, after).contains(
                    buffer_call(toplevel, target, buffer),
                )
            &&& forall|i: int|
                scene.actions.len() <= i < after.actions.len() ==> (
                #[trigger] after.actions[i] matches Action::Shell {
                    toplevel,
                    call: ShellCall::UpdateSurfaceDmatex { target, buffer: id, opaque },
                } ==> exists|x: int, buffer: AttachedBuffer|
                    order.contains(x) && #[trigger] is_shown(after, x, toplevel, target, buffer)
                        && buffer.id == id && (opaque <==> !buffer.transparent))
        }),
{
    let after = scene.committed(surface);
    let order = update_order(scene.surfaces, surface as int);
    lemma_does_not_wait(scene.surfaces, surface as int);
    updates_reach_waiting_surfaces(scene.surfaces, surface as int);
    assert(order.contains(surface as int));
    lemma_handlers_run(scene, surface);
    lemma_handlers_show_nothing(
        applied(scene, surface),
        surface,
        scene.surfaces[surface as int].on_commit_handlers,
    );
    let done = handlers_run(scene, surface);
    assert(after == done.shown(order));
    assert(shows_nothing_new(scene, done));
    let shown = done.order_actions(order);
    assert(after.actions == done.actions + shown);
    assert forall|x: int, toplevel: usize, target: SurfaceUpdateTarget, buffer: AttachedBuffer|
        order.contains(x) && #[trigger] is_shown(after, x, toplevel, target, buffer)
            && after.surfaces[x].on_updated_current_state_handlers.len() > 0 implies added_actions(
        scene,
        after,
    ).contains(buffer_call(toplevel, target, buffer)) by {
        assert(0 <= x < scene.surfaces.len());
        lemma_order_shows_all(done, order, x);
        let action = buffer_call(toplevel, target, buffer);
        assert(done.refreshed(order).surfaces[x] == after.surfaces[x]);
        assert(done.refreshed(order).buffer_action(x) == Some(action));
        let i = choose|i: int| 0 <= i < shown.len() && shown[i] == action;
        let k = done.actions.len() - scene.actions.len() + i;
        assert(added_actions(scene, after)[k] == action);
    }
    assert forall|i: int|
        scene.actions.len() <= i < after.actions.len() implies (
    #[trigger] after.actions[i] matches Action::Shell {
        toplevel,
        call: ShellCall::UpdateSurfaceDmatex { target, buffer: id, opaque },
    } ==> exists|x: int, buffer: AttachedBuffer|
        order.contains(x) && #[trigger] is_shown(after, x, toplevel, target, buffer) && buffer.id
            == id && (opaque <==> !buffer.transparent)) by {
        if let Action::Shell {
            toplevel,
            call: ShellCall::UpdateSurfaceDmatex { target, buffer: id, opaque },
        } = after.actions[i] {
            assert(shows(after.actions[i]));
            assert(i >= done.actions.len());
            let x = lemma_order_shows_no_more(done, order, i - done.actions.len());
            assert(0 <= x < scene.surfaces.len());
            let buffer = after.surfaces[x].state.current.buffer->0;
            assert(done.refreshed(order).surfaces[x] == after.surfaces[x]);
            assert(is_shown(after, x, toplevel, target, buffer));
        }
    }
}

/// The commit of a surface that waits for its parent shows no buffer at all.
pub proof fn waiting_commits_show_nothing(scene: Scene, surface: usize)
    requires
        is_linked(scene.surfaces),
        scene.links(),
        surface < scene.surfaces.len(),
        scene.surfaces[surface as int].requires_sync(),
    ensures
        ({
            let after = scene.committed(surface);
            &&& scene.actions.len() <= after.actions.len()
            &&& forall|i: int|
                scene.actions.len() <= i < after.actions.len() ==> !(
                #[trigger] after.actions[i] matches Action::Shell {
                    call: ShellCall::UpdateSurfaceDmatex { .. },
                    ..
                })
        }),
{
    lemma_handlers_run(scene, surface);
    lemma_handlers_show_nothing(
        applied(scene, surface),
        surface,
        scene.surfaces[surface as int].on_commit_handlers,
    );
    let after = scene.committed(surface);
    assert(after == handlers_run(scene, surface));
    assert forall|i: int| scene.actions.len() <= i < after.actions.len() implies !(
    #[trigger] after.actions[i] matches Action::Shell {
        call: ShellCall::UpdateSurfaceDmatex { .. },
        ..
    }) by {
        assert(!shows(after.actions[i]));
    }
}

/// What is to be done to show the surfaces of a list one after the other, as they are in a
/// scene: each shows its buffer, where it has one, a name and a live toplevel with a panel item.
pub open spec fn shown_list(scene: Scene, order: Seq<int>) -> Seq<Action>
    decreases order.len(),
{
    if order.len() == 0 {
        Seq::empty()
    } else {
        let s = scene.surfaces[order.last()];
        shown_list(scene, order.drop_last()) + match (
            s.state.current.buffer,
            s.surface_id,
            s.toplevel,
        ) {
            (Some(buffer), Some(target), Some(toplevel)) => if scene.toplevels[toplevel as int].alive
                && scene.toplevels[toplevel as int].mapped is Some {
                Seq::new(
                    s.on_updated_current_state_handlers.len(),
                    |j: int| buffer_call(toplevel, target, buffer),
                )
            } else {
                Seq::empty()
            },
            _ => Seq::empty(),
        }
    }
}

proof fn lemma_shown_list(scene: Scene, all: Seq<int>, n: int)
    requires
        0 <= n <= all.len(),
        forall|i: int| 0 <= i < all.len() ==> 0 <= #[trigger] all[i] < scene.surfaces.len(),
    ensures
        scene.order_actions(all.take(n)) == shown_list(scene.refreshed(all), all.take(n)),
    decreases n,
{
    let order = all.take(n);
    if n > 0 {
        lemma_shown_list(scene, all, n - 1);
        assert(order.drop_last() =~= all.take(n - 1));
        let x = all[n - 1];
        assert(order.last() == x && order[n - 1] == x && order.contains(x) && all.contains(x));
        assert(0 <= x < scene.surfaces.len());
        assert(scene.refreshed(order).surfaces[x] == scene.refreshed(all).surfaces[x]);
        let s = scene.refreshed(all).surfaces[x];
        let last = shown_list(scene.refreshed(all), order).skip(
            shown_list(scene.refreshed(all), order.drop_last()).len() as int,
        );
        assert(scene.refreshed(order).updated_actions(x) =~= last);
        assert(scene.order_actions(order) =~= shown_list(scene.refreshed(all), order));
    }
}

/// What a commit that does not wait shows comes behind all that it does else: each updated
/// surface in turn, once for every handler that it has for that.
pub proof fn commits_show_surfaces_in_turn(scene: Scene, surface: usize)
    requires
        is_linked(scene.surfaces),
        scene.links(),
        surface < scene.surfaces.len(),
        !scene.surfaces[surface as int].requires_sync(),
    ensures
        ({
            let after = scene.committed(surface);
            let shown = shown_list(after, update_order(scene.surfaces, surface as int));
            let n = after.actions.len() - shown.len();
            &&& scene.actions.len() <= n
            &&& after.actions.skip(n) == shown
            &&& forall|i: int|
                scene.actions.len() <= i < n ==> !(#[trigger] after.actions[i] matches Action::Shell {
                    call: ShellCall::UpdateSurfaceDmatex { .. },
                    ..
                })
        }),
{
    let after = scene.committed(surface);
    let order = update_order(scene.surfaces, surface as int);
    lemma_does_not_wait(scene.surfaces, surface as int);
    updates_reach_waiting_surfaces(scene.surfaces, surface as int);
    lemma_handlers_run(scene, surface);
    lemma_handlers_show_nothing(
        applied(scene, surface),
        surface,
        scene.surfaces[surface as int].on_commit_handlers,
    );
    let done = handlers_run(scene, surface);
    assert(shows_nothing_new(scene, done));
    assert forall|i: int| 0 <= i < order.len() implies 0 <= #[trigger] order[i]
        < done.surfaces.len() by {
        assert(order.contains(order[i]));
    }
    lemma_shown_list(done, order, order.len() as int);
    assert(order.take(order.len() as int) =~= order);
    lemma_list_alike(done.refreshed(order), after, order);
    let shown = shown_list(after, order);
    let n = after.actions.len() - shown.len();
    assert(n == done.actions.len());
    assert(after.actions.skip(n) =~= shown);
    assert forall|i: int| scene.actions.len() <= i < n implies !(
    #[trigger] after.actions[i] matches Action::Shell {
        call: ShellCall::UpdateSurfaceDmatex { .. },
        ..
    }) by {
        assert(after.actions[i] == done.actions[i]);
        assert(!shows(done.actions[i]));
    }
}

proof fn lemma_list_alike(a: Scene, b: Scene, order: Seq<int>)
    requires
        a.surfaces == b.surfaces,
        a.toplevels == b.toplevels,
    ensures
        shown_list(a, order) == shown_list(b, order),
    decreases order.len(),
{
    if order.len() > 0 {
        lemma_list_alike(a, b, order.drop_last());
    }
}

/// A surface waits for the commit of its parent exactly where it is a subsurface, has a filter,
/// and the filter says so at that commit.
pub proof fn only_asked_subsurfaces_wait(surface: SurfaceView, answer: bool)
    ensures
        surface.asked(answer).requires_sync() <==> {
            &&& answer
            &&& surface.role == Some(SurfaceRole::Subsurface)
            &&& surface.requires_parent_sync is Some
        },
        surface.role != Some(SurfaceRole::Subsurface) ==> !surface.requires_sync(),
        surface.requires_parent_sync is None ==> !surface.requires_sync(),
{
}

/// Commits change of any surface only its state and the handlers that wait for a commit; of a
/// toplevel only the children of its panel item; and nothing of `xdg_surface` objects and
/// popups. Toplevels keep or lack their panel items.
pub proof fn commits_change_nothing_else(scene: Scene, answers: Seq<bool>, surface: usize, i: int)
    requires
        is_linked(scene.asked(answers).surfaces),
        scene.asked(answers).links(),
        surface < scene.surfaces.len(),
    ensures
        ({
            let after = scene.asked(answers).committed(surface);
            &&& after.surfaces.len() == scene.surfaces.len()
            &&& after.toplevels.len() == scene.toplevels.len()
            &&& after.xdg_surfaces == scene.xdg_surfaces
            &&& after.popups == scene.popups
            &&& 0 <= i < scene.surfaces.len() ==> {
                let a = scene.surfaces[i];
                let b = after.surfaces[i];
                &&& b.id == a.id
                &&& b.surface_id == a.surface_id
                &&& b.role == a.role
                &&& b.requires_parent_sync == a.requires_parent_sync
                &&& b.on_updated_current_state_handlers == a.on_updated_current_state_handlers
                &&& b.presentation_feedback == a.presentation_feedback
                &&& b.children == a.children
                &&& b.parent == a.parent
                &&& b.toplevel == a.toplevel
                &&& b.alive == a.alive
                &&& i != surface ==> b.on_commit_handlers == a.on_commit_handlers
                &&& i != surface ==> b.state.pending == a.state.pending
            }
            &&& 0 <= i < scene.toplevels.len() ==> {
                let a = scene.toplevels[i];
                let b = after.toplevels[i];
                &&& b.id == a.id
                &&& b.wl_surface == a.wl_surface
                &&& b.xdg_surface == a.xdg_surface
                &&& b.alive == a.alive
                &&& b.last_committed_res == a.last_committed_res
                &&& b.title == a.title
                &&& b.app_id == a.app_id
                &&& (b.mapped is Some <==> a.mapped is Some)
            }
        }),
{
    let start = scene.asked(answers);
    lemma_handlers_run(start, surface);
    lemma_relinked(start, surface as int, applied(start, surface).surfaces[surface as int]);
    lemma_handlers_keep(
        applied(start, surface),
        surface,
        start.surfaces[surface as int].on_commit_handlers,
        i,
    );
    let done = handlers_run(start, surface);
    let after = start.committed(surface);
    if 0 <= i < scene.surfaces.len() {
        assert(start.surfaces[i] == scene.surfaces[i].asked(answers[i]));
        assert(done.surfaces[i].id == start.surfaces[i].id);
    }
}

/// Commit handlers change of a toplevel only the children of its panel item.
proof fn lemma_handlers_keep(scene: Scene, surface: usize, handlers: Seq<CommitHandler>, i: int)
    requires
        scene.links(),
        surface < scene.surfaces.len(),
        forall|j: int|
            0 <= j < handlers.len() ==> #[trigger] handler_links(
                handlers[j],
                scene.toplevels.len(),
                scene.popups.len(),
            ),
    ensures
        ({
            let after = scene.all_handled(surface, handlers).0;
            &&& after.surfaces == scene.surfaces
            &&& after.xdg_surfaces == scene.xdg_surfaces
            &&& after.popups == scene.popups
            &&& after.toplevels.len() == scene.toplevels.len()
            &&& 0 <= i < scene.toplevels.len() ==> {
                let a = scene.toplevels[i];
                let b = after.toplevels[i];
                &&& b.id == a.id
                &&& b.wl_surface == a.wl_surface
                &&& b.xdg_surface == a.xdg_surface
                &&& b.alive == a.alive
                &&& b.last_committed_res == a.last_committed_res
                &&& b.title == a.title
                &&& b.app_id == a.app_id
                &&& (b.mapped is Some <==> a.mapped is Some)
            }
        }),
    decreases handlers.len(),
{
    if handlers.len() > 0 {
        let rest = handlers.drop_last();
        assert forall|j: int| 0 <= j < rest.len() implies #[trigger] handler_links(
            rest[j],
            scene.toplevels.len(),
            scene.popups.len(),
        ) by {
            assert(rest[j] == handlers[j]);
        }
        lemma_handlers_keep(scene, surface, rest, i);
        lemma_all_handled(scene, surface, rest);
    }
}

/// A surface that is put below another one belongs to the toplevel of that surface from then
/// on, whether or not it had a parent before, and is shown by the same panel item.
pub proof fn subsurfaces_join_the_window(scene: Scene, surface: usize, parent: usize)
    requires
        surface < scene.surfaces.len(),
        parent < scene.surfaces.len(),
        surface != parent,
    ensures
        ({
            let after = scene.with_parent(surface, parent);
            let a = after.surfaces[surface as int];
            let p = scene.surfaces[parent as int];
            &&& a.toplevel == p.toplevel
            &&& after.surfaces[parent as int].toplevel == p.toplevel
            &&& after.toplevels == scene.toplevels
            &&& after.panel_item(surface as int) == scene.panel_item(parent as int)
        }),
{
}

/// The first surface that a surface is put below becomes its parent and has it as its youngest
/// child; later ones do not. Nothing else changes of these two, and nothing of any other.
pub proof fn surfaces_get_one_parent(scene: Scene, surface: usize, parent: usize, other: int)
    requires
        surface < scene.surfaces.len(),
        parent < scene.surfaces.len(),
        surface != parent,
    ensures
        ({
            let after = scene.with_parent(surface, parent);
            let s = scene.surfaces[surface as int];
            let p = scene.surfaces[parent as int];
            let a = after.surfaces[surface as int];
            let b = after.surfaces[parent as int];
            &&& s.parent is None ==> a.parent == Some(parent) && b.children == p.children.push(
                surface,
            )
            &&& s.parent is Some ==> a.parent == s.parent && b.children == p.children
            &&& a == (SurfaceView { parent: a.parent, toplevel: a.toplevel, ..s })
            &&& b == (SurfaceView { children: b.children, ..p })
            &&& after.surfaces.len() == scene.surfaces.len()
            &&& 0 <= other < scene.surfaces.len() && other != surface && other != parent
                ==> after.surfaces[other] == scene.surfaces[other]
            &&& after.xdg_surfaces == scene.xdg_surfaces
            &&& after.toplevels == scene.toplevels
            &&& after.popups == scene.popups
            &&& after.actions == scene.actions
        }),
{
    let after = scene.with_parent(surface, parent);
    let s = scene.surfaces[surface as int];
    let p = scene.surfaces[parent as int];
    let a = after.surfaces[surface as int];
    let b = after.surfaces[parent as int];
    assert(a =~= (SurfaceView { parent: a.parent, toplevel: a.toplevel, ..s }));
    assert(b =~= (SurfaceView { children: b.children, ..p }));
}

/// What a client has set since the last commit is what a commit shows that does not wait, each
/// value as it was set last. The frame callbacks that wait stay in the order of the requests.
pub proof fn requests_show_with_the_commit(
    state: CommitView,
    buffer: Option<AttachedBuffer>,
    scale: i32,
    callback: ObjectId,
    surface: SurfaceView,
)
    requires
        surface.state == state,
    ensures
        ({
            let asked = surface.attached(buffer).scaled(scale).awaiting(callback);
            let after = asked.state.committed(false);
            &&& asked == (SurfaceView { state: asked.state, ..surface })
            &&& asked.state.current == state.current
            &&& asked.state.queued == state.queued
            &&& after.current.buffer == buffer
            &&& after.current.density == scale
            &&& after.current.geometry == state.pending.geometry
            &&& after.current.min_size == state.pending.min_size
            &&& after.current.max_size == state.pending.max_size
            &&& after.current.frame_callbacks.last() == callback
            &&& after.current.frame_callbacks.drop_last() == state.current.frame_callbacks + (
            match state.queued {
                Some(queued) => queued.frame_callbacks,
                None => Seq::empty(),
            }) + state.pending.frame_callbacks
            &&& after.queued is None
            &&& after.pending.buffer == buffer
            &&& after.pending.density == scale
            &&& after.pending.geometry == state.pending.geometry
            &&& after.pending.min_size == state.pending.min_size
            &&& after.pending.max_size == state.pending.max_size
            &&& after.pending.frame_callbacks.len() == 0
        }),
{
    let asked = surface.attached(buffer).scaled(scale).awaiting(callback);
    let after = asked.state.committed(false);
    assert(asked =~= (SurfaceView { state: asked.state, ..surface }));
    let old = match state.queued {
        Some(queued) => queued.frame_callbacks,
        None => Seq::empty(),
    };
    assert(after.current.frame_callbacks =~= (state.current.frame_callbacks + old
        + state.pending.frame_callbacks).push(callback));
    assert((state.current.frame_callbacks + old + state.pending.frame_callbacks).push(
        callback,
    ).drop_last() =~= state.current.frame_callbacks + old + state.pending.frame_callbacks);
}

/// A request for one thing leaves the others as they are.
pub proof fn requests_are_independent(
    surface: SurfaceView,
    buffer: Option<AttachedBuffer>,
    scale: i32,
    callback: ObjectId,
)
    ensures
        ({
            let old = surface.state.pending;
            let attached = surface.attached(buffer);
            let scaled = surface.scaled(scale);
            let awaiting = surface.awaiting(callback);
            &&& attached.state.pending == (StateView { buffer, ..old })
            &&& scaled.state.pending == (StateView { density: scale, ..old })
            &&& awaiting.state.pending.frame_callbacks == old.frame_callbacks.push(callback)
            &&& awaiting.state.pending == (StateView {
                frame_callbacks: awaiting.state.pending.frame_callbacks,
                ..old
            })
            &&& attached.state.current == surface.state.current
            &&& scaled.state.current == surface.state.current
            &&& awaiting.state.current == surface.state.current
        }),
{
}

/// What was set aside is shown when it becomes current, with the newest of all values and the
/// callbacks of all commits; where nothing was set aside, nothing changes.
pub proof fn updates_show_what_was_set_aside(state: CommitView)
    ensures
        match state.queued {
            Some(queued) => {
                let after = state.updated();
                &&& after.current.buffer == queued.buffer
                &&& after.current.density == queued.density
                &&& after.current.geometry == queued.geometry
                &&& after.current.min_size == queued.min_size
                &&& after.current.max_size == queued.max_size
                &&& after.current.frame_callbacks == state.current.frame_callbacks
                    + queued.frame_callbacks
                &&& after.queued is None
                &&& after.pending == state.pending
            },
            None => state.updated() == state,
        },
        ({
            let after = state.committed(true);
            &&& after.current == state.current
            &&& after.queued is Some
            &&& after.queued->0.buffer == state.pending.buffer
            &&& after.queued->0.density == state.pending.density
            &&& after.queued->0.geometry == state.pending.geometry
            &&& after.queued->0.min_size == state.pending.min_size
            &&& after.queued->0.max_size == state.pending.max_size
            &&& after.pending.buffer == state.pending.buffer
            &&& after.pending.frame_callbacks.len() == 0
        }),
{
}

/// A surface has pixels to show exactly where it has a buffer that is neither without width nor
/// without height.
pub proof fn valid_buffers_have_pixels(state: StateView)
    ensures
        state.has_valid_buffer() <==> exists|buffer: AttachedBuffer| #[trigger]
            has_buffer(state, buffer) && buffer.size.x != 0 && buffer.size.y != 0,
{
    if state.has_valid_buffer() {
        assert(has_buffer(state, state.buffer->0));
    }
}

/// Whether a state has a buffer.
pub open spec fn has_buffer(state: StateView, buffer: AttachedBuffer) -> bool {
    state.buffer == Some(buffer)
}

/// A surface takes on a role where it has none, or has that very role already, and keeps any
/// other; then the client is told that it made the error that the role has for that.
pub proof fn first_role_stays(
    surface: SurfaceView,
    role: SurfaceRole,
    role_error: u32,
    later: SurfaceRole,
    later_error: u32,
)
    ensures
        ({
            let (after, answer) = surface.with_role(role, role_error);
            let (last, refusal) = after.with_role(later, later_error);
            &&& surface.role is None || surface.role == Some(role) <==> answer is Ok
            &&& answer is Ok ==> after.role == Some(role)
            &&& answer is Err ==> after == surface && answer == Err::<(), _>(
                WaylandError::Fatal {
                    object_id: surface.id,
                    code: role_error,
                    message: "Surface has an incomparible role",
                },
            )
            &&& after == (SurfaceView { role: after.role, ..surface })
            &&& answer is Ok ==> (refusal is Ok <==> later == role) && last.role == Some(role)
        }),
{
    let after = surface.with_role(role, role_error).0;
    assert(after =~= (SurfaceView { role: after.role, ..surface }));
}

/// A surface keeps the first name that it got.
pub proof fn first_name_stays(
    surface: SurfaceView,
    target: SurfaceUpdateTarget,
    later: SurfaceUpdateTarget,
)
    ensures
        ({
            let after = surface.named(target);
            &&& surface.surface_id is None ==> after.surface_id == Some(target)
            &&& surface.surface_id is Some ==> after == surface
            &&& after.named(later) == after
            &&& after == (SurfaceView { surface_id: after.surface_id, ..surface })
        }),
{
    let after = surface.named(target);
    assert(after =~= (SurfaceView { surface_id: after.surface_id, ..surface }));
    assert(after.named(later) =~= after);
    assert(surface.surface_id is Some ==> after =~= surface);
}

/// A surface that a frame answered has no callback of what it shows left; all else is as
/// before.
pub proof fn frames_take_shown_callbacks(surface: SurfaceView)
    ensures
        ({
            let after = surface.framed();
            &&& after.state.current.frame_callbacks.len() == 0
            &&& after.state.current == (StateView {
                frame_callbacks: after.state.current.frame_callbacks,
                ..surface.state.current
            })
            &&& after.state.queued == surface.state.queued
            &&& after.state.pending == surface.state.pending
            &&& after == (SurfaceView { state: after.state, ..surface })
        }),
{
    let after = surface.framed();
    assert(after =~= (SurfaceView { state: after.state, ..surface }));
}

/// A surface that nothing refers to any more has no role, and is otherwise as it was.
pub proof fn released_surfaces_have_no_role(surface: SurfaceView)
    ensures
        surface.released().role is None,
        !surface.released().alive,
        surface.released() == (SurfaceView { role: None, alive: false, ..surface }),
{
    assert(surface.released() =~= (SurfaceView { role: None, alive: false, ..surface }));
}

/// A new surface shows nothing, is nothing to any other, and shows its buffers as they become
/// current.
pub proof fn new_surfaces_are_blank(id: ObjectId)
    ensures
        ({
            let s = SurfaceView::new(id);
            &&& s.id == id
            &&& s.alive
            &&& s.surface_id is None
            &&& s.role is None
            &&& s.requires_parent_sync is None
            &&& s.parent is None
            &&& s.toplevel is None
            &&& s.children.len() == 0
            &&& s.on_commit_handlers.len() == 0
            &&& s.on_updated_current_state_handlers == seq![UpdatedHandler::BufferUpdate]
            &&& s.presentation_feedback.len() == 0
            &&& s.state.current.buffer is None
            &&& s.state.current.density == 1
            &&& s.state.current.geometry is None
            &&& s.state.current.min_size is None
            &&& s.state.current.max_size is None
            &&& s.state.current.frame_callbacks.len() == 0
            &&& s.state.pending == s.state.current
            &&& s.state.queued is None
        }),
{
}

/// A surface is on the panel item of its toplevel exactly as long as anything refers to the
/// toplevel and the toplevel has one.
pub proof fn live_windows_have_panel_items(scene: Scene, surface: int, toplevel: usize)
    ensures
        scene.panel_item(surface) == Some(toplevel) <==> {
            &&& scene.surfaces[surface].toplevel == Some(toplevel)
            &&& scene.toplevels[toplevel as int].alive
            &&& scene.toplevels[toplevel as int].mapped is Some
        },
{
}

/// Whether `x` comes before `y` in a list.
pub open spec fn comes_before(order: Seq<int>, x: int, y: int) -> bool {
    exists|i: int, j: int|
        0 <= i < j < order.len() && #[trigger] order[i] == x && #[trigger] order[j] == y
}

/// What comes before in a part of a list comes before in the list.
proof fn lemma_part_before(all: Seq<int>, part: Seq<int>, at: int, x: int, y: int)
    requires
        0 <= at <= all.len() - part.len(),
        forall|k: int| 0 <= k < part.len() ==> all[at + k] == #[trigger] part[k],
        comes_before(part, x, y),
    ensures
        comes_before(all, x, y),
{
    let (i, j) = choose|i: int, j: int|
        0 <= i < j < part.len() && #[trigger] part[i] == x && #[trigger] part[j] == y;
    assert(all[at + i] == x && all[at + j] == y);
}

/// Where what waits for one child of a surface begins among what waits for all.
proof fn lemma_child_part(surfaces: Seq<SurfaceView>, surface: int, n: nat, depth: nat, c: int)
    requires
        0 <= c < n,
        depth > 0,
        waits(surfaces, surfaces[surface].children[c] as int),
    ensures
        ({
            let all = child_order(surfaces, surface, n, depth);
            let at = child_order(surfaces, surface, c as nat, depth).len();
            let part = sync_order(
                surfaces,
                surfaces[surface].children[c] as int,
                (depth - 1) as nat,
            );
            &&& at + part.len() <= all.len()
            &&& forall|k: int| 0 <= k < part.len() ==> all[at + k] == #[trigger] part[k]
            &&& forall|k: int|
                0 <= k < at ==> #[trigger] all[k] == child_order(
                    surfaces,
                    surface,
                    c as nat,
                    depth,
                )[k]
        }),
    decreases n,
{
    if c < n - 1 {
        lemma_child_part(surfaces, surface, (n - 1) as nat, depth, c);
    }
}

proof fn lemma_parents_first(surfaces: Seq<SurfaceView>, surface: int, depth: nat, x: int)
    requires
        is_linked(surfaces),
        0 <= surface < surfaces.len(),
        sync_order(surfaces, surface, depth).contains(x),
        x != surface,
    ensures
        0 <= x < surfaces.len(),
        surfaces[x].parent is Some,
        comes_before(
            sync_order(surfaces, surface, depth),
            surfaces[x].parent->0 as int,
            x,
        ),
    decreases depth,
{
    let all = sync_order(surfaces, surface, depth);
    let n = surfaces[surface].children.len();
    let c = lemma_order_child(surfaces, surface, depth, x);
    let child = surfaces[surface].children[c] as int;
    let below = (depth - 1) as nat;
    let part = sync_order(surfaces, child, below);
    lemma_child_part(surfaces, surface, n, depth, c);
    let at = child_order(surfaces, surface, c as nat, depth).len() + 1;
    assert(surfaces[child].parent == Some(surface as usize));
    assert forall|k: int| 0 <= k < part.len() implies all[at + k] == #[trigger] part[k] by {
        assert(all[at + k] == child_order(surfaces, surface, n, depth)[at - 1 + k]);
    }
    if x == child {
        assert(part[0] == child);
        assert(all[0] == surface && all[at as int] == x);
    } else {
        lemma_parents_first(surfaces, child, below, x);
        lemma_part_before(all, part, at as int, surfaces[x].parent->0 as int, x);
    }
}

proof fn lemma_siblings_in_order(
    surfaces: Seq<SurfaceView>,
    surface: int,
    depth: nat,
    parent: int,
    a: int,
    b: int,
)
    requires
        is_linked(surfaces),
        0 <= surface < surfaces.len(),
        ends(surfaces, surface, depth),
        sync_order(surfaces, surface, depth).contains(parent),
        0 <= a < b < surfaces[parent].children.len(),
        waits(surfaces, surfaces[parent].children[a] as int),
        waits(surfaces, surfaces[parent].children[b] as int),
    ensures
        comes_before(
            sync_order(surfaces, surface, depth),
            surfaces[parent].children[a] as int,
            surfaces[parent].children[b] as int,
        ),
    decreases depth,
{
    let all = sync_order(surfaces, surface, depth);
    let n = surfaces[surface].children.len();
    let below = (depth - 1) as nat;
    if parent == surface {
        let x = surfaces[surface].children[a] as int;
        let y = surfaces[surface].children[b] as int;
        assert(ends(surfaces, x, below));
        lemma_child_part(surfaces, surface, b as nat, depth, a);
        lemma_child_part(surfaces, surface, n, depth, b);
        let first = child_order(surfaces, surface, a as nat, depth).len() as int;
        let second = child_order(surfaces, surface, b as nat, depth).len() as int;
        assert(sync_order(surfaces, x, below)[0] == x);
        assert(sync_order(surfaces, y, below)[0] == y);
        assert(child_order(surfaces, surface, b as nat, depth)[first] == x);
        assert(child_order(surfaces, surface, n, depth)[first] == x);
        assert(child_order(surfaces, surface, n, depth)[second] == y);
        assert(all[1 + first] == x && all[1 + second] == y);
    } else {
        let c = lemma_order_child(surfaces, surface, depth, parent);
        let child = surfaces[surface].children[c] as int;
        let part = sync_order(surfaces, child, below);
        lemma_child_part(surfaces, surface, n, depth, c);
        let at = child_order(surfaces, surface, c as nat, depth).len() + 1;
        assert forall|k: int| 0 <= k < part.len() implies all[at + k] == #[trigger] part[k] by {
            assert(all[at + k] == child_order(surfaces, surface, n, depth)[at - 1 + k]);
        }
        lemma_siblings_in_order(surfaces, child, below, parent, a, b);
        lemma_part_before(
            all,
            part,
            at as int,
            surfaces[parent].children[a] as int,
            surfaces[parent].children[b] as int,
        );
    }
}

/// Every surface is updated after its parent, and the children of a surface in the order in
/// which they were put below it.
pub proof fn updates_go_down_in_order(surfaces: Seq<SurfaceView>, surface: int, x: int, a: int, b: int)
    requires
        is_linked(surfaces),
        0 <= surface < surfaces.len(),
        !waits_for_itself(surfaces, surface),
        update_order(surfaces, surface).contains(x),
    ensures
        update_order(surfaces, surface)[0] == surface,
        x != surface ==> surfaces[x].parent is Some && comes_before(
            update_order(surfaces, surface),
            surfaces[x].parent->0 as int,
            x,
        ),
        0 <= a < b < surfaces[x].children.len() && waits(surfaces, surfaces[x].children[a] as int)
            && waits(surfaces, surfaces[x].children[b] as int) ==> comes_before(
            update_order(surfaces, surface),
            surfaces[x].children[a] as int,
            surfaces[x].children[b] as int,
        ),
{
    lemma_update_ends(surfaces, surface);
    if x != surface {
        lemma_parents_first(surfaces, surface, surfaces.len(), x);
    }
    if 0 <= a < b < surfaces[x].children.len() && waits(surfaces, surfaces[x].children[a] as int)
        && waits(surfaces, surfaces[x].children[b] as int) {
        lemma_siblings_in_order(surfaces, surface, surfaces.len(), x, a, b);
    }
}

/// A surface that is updated with its parent is alive and waits.
pub proof fn dead_surfaces_do_not_wait(surfaces: Seq<SurfaceView>, surface: int)
    ensures
        waits(surfaces, surface) <==> surfaces[surface].alive && surfaces[surface].requires_sync(),
{
}

/// The answers that a commit goes by are those that the filters of the surfaces give, each its
/// own.
pub proof fn filters_are_asked<F: Fn(CommitFilter) -> bool>(
    ask: F,
    surfaces: Seq<SurfaceView>,
    answers: Seq<bool>,
    i: int,
    filter: CommitFilter,
)
    requires
        are_answers(ask, surfaces, answers),
        0 <= i < surfaces.len(),
        surfaces[i].requires_parent_sync == Some(filter),
    ensures
        answers.len() == surfaces.len(),
        ask.ensures((filter,), answers[i]),
{
    assert(surfaces[i].requires_parent_sync matches Some(f) && f == filter);
}

/// What filters say is noted of their surfaces, and changes nothing else.
pub proof fn answers_are_noted(scene: Scene, answers: Seq<bool>, i: int)
    requires
        0 <= i < scene.surfaces.len(),
    ensures
        ({
            let after = scene.asked(answers);
            &&& after.surfaces.len() == scene.surfaces.len()
            &&& after.surfaces[i] == (SurfaceView {
                filter_answer: answers[i],
                ..scene.surfaces[i]
            })
            &&& after.xdg_surfaces == scene.xdg_surfaces
            &&& after.toplevels == scene.toplevels
            &&& after.popups == scene.popups
            &&& after.actions == scene.actions
        }),
{
    assert(scene.asked(answers).surfaces[i] =~= (SurfaceView {
        filter_answer: answers[i],
        ..scene.surfaces[i]
    }));
}

} // verus!
