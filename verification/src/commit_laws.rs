//! What holds of every commit.
use crate::compositor::Action;
use crate::protocols::wl::surface::{CommitHandler, SurfaceView};
use crate::protocols::wl::surface_state::{commits_keep_callbacks, waiting_defers_commit};
use crate::scene::{
    child_order, ends, handler_links, is_chain, is_linked, lemma_does_not_wait, lemma_handled_wf,
    lemma_relinked, lemma_same_order, lemma_shown_tree, lemma_shown_wf, lemma_update_ends,
    same_tree, sync_order, update_order, waits, waits_for_itself, Scene,
};
use vstd::prelude::*;

verus! {

/// Whether the child at the place `j` of a surface waits for it.
spec fn waits_at(surfaces: Seq<SurfaceView>, surface: int, j: int) -> bool {
    waits(surfaces, surfaces[surface].children[j] as int)
}

proof fn lemma_child_order_member(
    surfaces: Seq<SurfaceView>,
    surface: int,
    n: nat,
    depth: nat,
    x: int,
)
    ensures
        child_order(surfaces, surface, n, depth).contains(x) <==> depth > 0 && exists|j: int|
            0 <= j < n && #[trigger] waits_at(surfaces, surface, j) && sync_order(
                surfaces,
                surfaces[surface].children[j] as int,
                (depth - 1) as nat,
            ).contains(x),
    decreases n,
{
    let all = child_order(surfaces, surface, n, depth);
    let below = (depth - 1) as nat;
    if n > 0 {
        let m = (n - 1) as nat;
        let child = surfaces[surface].children[n - 1] as int;
        let first = child_order(surfaces, surface, m, depth);
        let last = if waits_at(surfaces, surface, m as int) && depth > 0 {
            sync_order(surfaces, child, below)
        } else {
            Seq::empty()
        };
        assert(all == first + last);
        lemma_child_order_member(surfaces, surface, m, depth, x);
        if all.contains(x) {
            let k = choose|k: int| 0 <= k < all.len() && all[k] == x;
            if k < first.len() {
                assert(first[k] == x);
                assert(first.contains(x));
                let j = choose|j: int|
                    0 <= j < m && #[trigger] waits_at(surfaces, surface, j) && sync_order(
                        surfaces,
                        surfaces[surface].children[j] as int,
                        below,
                    ).contains(x);
                assert(0 <= j < n && waits_at(surfaces, surface, j));
            } else {
                assert(last[k - first.len()] == x);
                assert(last.contains(x));
                assert(waits_at(surfaces, surface, m as int));
            }
        }
        if depth > 0 && exists|j: int|
            0 <= j < n && #[trigger] waits_at(surfaces, surface, j) && sync_order(
                surfaces,
                surfaces[surface].children[j] as int,
                below,
            ).contains(x) {
            let j = choose|j: int|
                0 <= j < n && #[trigger] waits_at(surfaces, surface, j) && sync_order(
                    surfaces,
                    surfaces[surface].children[j] as int,
                    below,
                ).contains(x);
            if j < m {
                let k = choose|k: int| 0 <= k < first.len() && first[k] == x;
                assert(all[k] == x);
            } else {
                let k = choose|k: int| 0 <= k < last.len() && last[k] == x;
                assert(all[first.len() + k] == x);
            }
        }
    }
}

proof fn lemma_order_member(surfaces: Seq<SurfaceView>, surface: int, depth: nat, x: int)
    ensures
        sync_order(surfaces, surface, depth).contains(x) <==> x == surface || (depth > 0
            && exists|j: int|
            0 <= j < surfaces[surface].children.len() && #[trigger] waits_at(surfaces, surface, j)
                && sync_order(
                surfaces,
                surfaces[surface].children[j] as int,
                (depth - 1) as nat,
            ).contains(x)),
{
    let n = surfaces[surface].children.len();
    let below = child_order(surfaces, surface, n, depth);
    let all = sync_order(surfaces, surface, depth);
    assert(all == seq![surface] + below);
    lemma_child_order_member(surfaces, surface, n, depth, x);
    if all.contains(x) && x != surface {
        let k = choose|k: int| 0 <= k < all.len() && all[k] == x;
        assert(below[k - 1] == x);
        assert(below.contains(x));
    }
    assert(all[0] == surface);
    if below.contains(x) {
        let k = choose|k: int| 0 <= k < below.len() && below[k] == x;
        assert(all[k + 1] == x);
    }
}

/// The place of the child by way of which a surface is updated.
pub(crate) proof fn lemma_order_child(
    surfaces: Seq<SurfaceView>,
    surface: int,
    depth: nat,
    x: int,
) -> (c: int)
    requires
        sync_order(surfaces, surface, depth).contains(x),
        x != surface,
    ensures
        depth > 0,
        0 <= c < surfaces[surface].children.len(),
        waits(surfaces, surfaces[surface].children[c] as int),
        sync_order(surfaces, surfaces[surface].children[c] as int, (depth - 1) as nat).contains(x),
{
    lemma_order_member(surfaces, surface, depth, x);
    choose|j: int|
        0 <= j < surfaces[surface].children.len() && #[trigger] waits_at(surfaces, surface, j)
            && sync_order(
            surfaces,
            surfaces[surface].children[j] as int,
            (depth - 1) as nat,
        ).contains(x)
}

/// What a chain from a child that waits becomes with the surface before it.
proof fn lemma_longer_chain(surfaces: Seq<SurfaceView>, surface: int, path: Seq<int>)
    requires
        is_chain(surfaces, path),
        0 <= surface < surfaces.len(),
        surfaces[path[0]].parent == Some(surface as usize),
        waits(surfaces, path[0]),
    ensures
        is_chain(surfaces, seq![surface] + path),
{
    let longer = seq![surface] + path;
    assert forall|i: int| 0 <= i < longer.len() implies 0 <= #[trigger] longer[i]
        < surfaces.len() by {
        if i > 0 {
            assert(longer[i] == path[i - 1]);
        }
    }
    assert forall|i: int| 0 < i < longer.len() implies {
        &&& surfaces[#[trigger] longer[i]].parent == Some(longer[i - 1] as usize)
        &&& waits(surfaces, longer[i])
    } by {
        assert(longer[i] == path[i - 1]);
        if i > 1 {
            assert(longer[i - 1] == path[i - 2]);
        }
    }
}

/// What is updated with a surface is at the end of a chain from it.
proof fn lemma_order_chain(surfaces: Seq<SurfaceView>, surface: int, depth: nat, x: int) -> (path:
    Seq<int>)
    requires
        is_linked(surfaces),
        0 <= surface < surfaces.len(),
        sync_order(surfaces, surface, depth).contains(x),
    ensures
        is_chain(surfaces, path),
        path[0] == surface,
        path.last() == x,
    decreases depth,
{
    lemma_order_member(surfaces, surface, depth, x);
    if x == surface {
        seq![surface]
    } else {
        let j = choose|j: int|
            0 <= j < surfaces[surface].children.len() && #[trigger] waits_at(surfaces, surface, j)
                && sync_order(
                surfaces,
                surfaces[surface].children[j] as int,
                (depth - 1) as nat,
            ).contains(x);
        let child = surfaces[surface].children[j] as int;
        let below = lemma_order_chain(surfaces, child, (depth - 1) as nat, x);
        lemma_longer_chain(surfaces, surface, below);
        let path = seq![surface] + below;
        assert(path.last() == below[below.len() - 1]);
        path
    }
}

/// From a surface that does not wait for itself only one chain leads to another surface: two
/// chains are equal as far back from their ends as both of them go.
proof fn lemma_one_chain(surfaces: Seq<SurfaceView>, a: Seq<int>, b: Seq<int>, back: int)
    requires
        surfaces.len() <= usize::MAX,
        is_chain(surfaces, a),
        is_chain(surfaces, b),
        a.last() == b.last(),
        0 <= back < a.len(),
        back < b.len(),
    ensures
        a[a.len() - 1 - back] == b[b.len() - 1 - back],
    decreases back,
{
    if back > 0 {
        lemma_one_chain(surfaces, a, b, back - 1);
        let i = a.len() - back;
        let j = b.len() - back;
        assert(surfaces[a[i]].parent == Some(a[i - 1] as usize));
        assert(surfaces[b[j]].parent == Some(b[j - 1] as usize));
        assert(0 <= a[i - 1] < surfaces.len() && 0 <= b[j - 1] < surfaces.len());
    }
}

/// No surface is updated by way of two children of a surface that does not wait for itself.
proof fn lemma_siblings_apart(
    surfaces: Seq<SurfaceView>,
    surface: int,
    a: int,
    b: int,
    depth: nat,
    x: int,
)
    requires
        is_linked(surfaces),
        0 <= surface < surfaces.len(),
        0 <= a < surfaces.len(),
        0 <= b < surfaces.len(),
        !waits_for_itself(surfaces, surface),
        surfaces[a].parent == Some(surface as usize),
        surfaces[b].parent == Some(surface as usize),
        waits(surfaces, a),
        waits(surfaces, b),
        sync_order(surfaces, a, depth).contains(x),
        sync_order(surfaces, b, depth).contains(x),
    ensures
        a == b,
{
    let from_a = lemma_order_chain(surfaces, a, depth, x);
    let from_b = lemma_order_chain(surfaces, b, depth, x);
    lemma_longer_chain(surfaces, surface, from_a);
    lemma_longer_chain(surfaces, surface, from_b);
    let p = seq![surface] + from_a;
    let q = seq![surface] + from_b;
    assert(p.last() == x && q.last() == x);
    if p.len() < q.len() {
        lemma_one_chain(surfaces, p, q, p.len() - 1);
        lemma_start_again(surfaces, q, q.len() - p.len());
    } else if q.len() < p.len() {
        lemma_one_chain(surfaces, p, q, q.len() - 1);
        lemma_start_again(surfaces, p, p.len() - q.len());
    } else {
        lemma_one_chain(surfaces, p, q, p.len() - 2);
        assert(p[1] == a && q[1] == b);
    }
}

/// A chain that comes to its start again shows that the start waits for itself.
proof fn lemma_start_again(surfaces: Seq<SurfaceView>, path: Seq<int>, i: int)
    requires
        is_chain(surfaces, path),
        0 < i < path.len(),
        path[i] == path[0],
    ensures
        waits_for_itself(surfaces, path[0]),
{
    let cycle = path.take(i + 1);
    assert(is_chain(surfaces, cycle));
    assert(cycle.last() == path[0]);
}

/// Where a surface does not wait for itself, nor do the children that wait for it.
proof fn lemma_children_do_not(surfaces: Seq<SurfaceView>, surface: int, child: int)
    requires
        is_linked(surfaces),
        0 <= surface < surfaces.len(),
        0 <= child < surfaces.len(),
        !waits_for_itself(surfaces, surface),
        surfaces[child].parent == Some(surface as usize),
    ensures
        !waits_for_itself(surfaces, child),
{
    assert forall|path: Seq<int>|
        #[trigger] is_chain(surfaces, path) && path.len() > 1 && path[0] == child implies path.last()
        != child by {
        if path.last() == child {
            let m = path.len() - 1;
            assert(surfaces[path[m]].parent == Some(path[m - 1] as usize));
            assert(0 <= path[m - 1] < surfaces.len());
            assert(path[m - 1] == surface);
            assert(waits(surfaces, path[m]));
            let first = path.take(m as int);
            assert(is_chain(surfaces, first));
            lemma_longer_chain(surfaces, surface, first);
            let cycle = seq![surface] + first;
            assert(cycle[m as int] == first[m - 1]);
            lemma_start_again(surfaces, cycle, m as int);
        }
    }
}

proof fn lemma_order_once(surfaces: Seq<SurfaceView>, surface: int, depth: nat)
    requires
        is_linked(surfaces),
        0 <= surface < surfaces.len(),
        !waits_for_itself(surfaces, surface),
    ensures
        sync_order(surfaces, surface, depth).no_duplicates(),
    decreases depth, surfaces[surface].children.len() + 1,
{
    let n = surfaces[surface].children.len();
    let below = child_order(surfaces, surface, n, depth);
    lemma_child_order_once(surfaces, surface, n, depth);
    let all = sync_order(surfaces, surface, depth);
    assert(all == seq![surface] + below);
    assert forall|i: int, j: int| 0 <= i < j < all.len() implies all[i] != all[j] by {
        if i > 0 {
            assert(below[i - 1] != below[j - 1]);
        } else if below[j - 1] == surface {
            assert(below.contains(surface));
            lemma_child_order_member(surfaces, surface, n, depth, surface);
            let c = choose|c: int|
                0 <= c < n && #[trigger] waits_at(surfaces, surface, c) && sync_order(
                    surfaces,
                    surfaces[surface].children[c] as int,
                    (depth - 1) as nat,
                ).contains(surface);
            let child = surfaces[surface].children[c] as int;
            let path = lemma_order_chain(surfaces, child, (depth - 1) as nat, surface);
            lemma_longer_chain(surfaces, surface, path);
            lemma_start_again(surfaces, seq![surface] + path, path.len() as int);
        }
    }
}

proof fn lemma_child_order_once(surfaces: Seq<SurfaceView>, surface: int, n: nat, depth: nat)
    requires
        is_linked(surfaces),
        0 <= surface < surfaces.len(),
        !waits_for_itself(surfaces, surface),
        n <= surfaces[surface].children.len(),
    ensures
        child_order(surfaces, surface, n, depth).no_duplicates(),
    decreases depth, n,
{
    if n > 0 {
        let m = (n - 1) as nat;
        let children = surfaces[surface].children;
        let child = children[m as int] as int;
        let below = (depth - 1) as nat;
        lemma_child_order_once(surfaces, surface, m, depth);
        if waits_at(surfaces, surface, m as int) && depth > 0 {
            lemma_children_do_not(surfaces, surface, child);
            lemma_order_once(surfaces, child, below);
            let first = child_order(surfaces, surface, m, depth);
            let last = sync_order(surfaces, child, below);
            let all = child_order(surfaces, surface, n, depth);
            assert(all == first + last);
            assert forall|i: int, j: int| 0 <= i < j < all.len() implies all[i] != all[j] by {
                if j < first.len() {
                    assert(first[i] != first[j]);
                } else if i >= first.len() {
                    assert(last[i - first.len()] != last[j - first.len()]);
                } else if all[i] == all[j] {
                    let x = all[i];
                    assert(first[i] == x && last[j - first.len()] == x);
                    assert(first.contains(x) && last.contains(x));
                    lemma_child_order_member(surfaces, surface, m, depth, x);
                    let c = choose|c: int|
                        0 <= c < m && #[trigger] waits_at(surfaces, surface, c) && sync_order(
                            surfaces,
                            children[c] as int,
                            below,
                        ).contains(x);
                    lemma_siblings_apart(
                        surfaces,
                        surface,
                        children[c] as int,
                        child,
                        below,
                        x,
                    );
                    assert(children[c] == children[m as int]);
                }
            }
        } else {
            assert(child_order(surfaces, surface, n, depth) =~= child_order(
                surfaces,
                surface,
                m,
                depth,
            ));
        }
    }
}

proof fn lemma_order_closed(
    surfaces: Seq<SurfaceView>,
    surface: int,
    depth: nat,
    parent: int,
    x: int,
)
    requires
        is_linked(surfaces),
        0 <= surface < surfaces.len(),
        0 <= parent < surfaces.len(),
        0 <= x < surfaces.len(),
        ends(surfaces, surface, depth),
        sync_order(surfaces, surface, depth).contains(parent),
        surfaces[x].parent == Some(parent as usize),
        waits(surfaces, x),
    ensures
        sync_order(surfaces, surface, depth).contains(x),
    decreases depth,
{
    lemma_order_member(surfaces, surface, depth, parent);
    lemma_order_member(surfaces, surface, depth, x);
    if parent == surface {
        assert(surfaces[surface].children.contains(x as usize));
        let j = choose|j: int|
            0 <= j < surfaces[surface].children.len() && surfaces[surface].children[j]
                == x as usize;
        assert(surfaces[surface].children[j] as int == x);
        assert(waits_at(surfaces, surface, j));
        lemma_order_member(surfaces, x, (depth - 1) as nat, x);
    } else {
        let j = choose|j: int|
            0 <= j < surfaces[surface].children.len() && #[trigger] waits_at(surfaces, surface, j)
                && sync_order(
                surfaces,
                surfaces[surface].children[j] as int,
                (depth - 1) as nat,
            ).contains(parent);
        let child = surfaces[surface].children[j] as int;
        lemma_order_closed(surfaces, child, (depth - 1) as nat, parent, x);
    }
}

proof fn lemma_order_from_parent(surfaces: Seq<SurfaceView>, surface: int, depth: nat, x: int)
    requires
        is_linked(surfaces),
        0 <= surface < surfaces.len(),
        sync_order(surfaces, surface, depth).contains(x),
        x != surface,
    ensures
        0 <= x < surfaces.len(),
        waits(surfaces, x),
        surfaces[x].parent is Some,
        sync_order(surfaces, surface, depth).contains(surfaces[x].parent->0 as int),
    decreases depth,
{
    lemma_order_member(surfaces, surface, depth, x);
    let below = (depth - 1) as nat;
    let j = choose|j: int|
        0 <= j < surfaces[surface].children.len() && #[trigger] waits_at(surfaces, surface, j)
            && sync_order(surfaces, surfaces[surface].children[j] as int, below).contains(x);
    let child = surfaces[surface].children[j] as int;
    assert(surfaces[child].parent == Some(surface as usize));
    if x == child {
        lemma_order_member(surfaces, surface, depth, surface);
    } else {
        lemma_order_from_parent(surfaces, child, below, x);
        lemma_order_member(surfaces, surface, depth, surfaces[x].parent->0 as int);
        assert(waits_at(surfaces, surface, j));
    }
}

/// Which surfaces are updated with a surface that does not wait for itself: the surface, and
/// every live surface that waits for a parent which is updated; each of them once.
pub proof fn updates_reach_waiting_surfaces(surfaces: Seq<SurfaceView>, surface: int)
    requires
        is_linked(surfaces),
        0 <= surface < surfaces.len(),
        !waits_for_itself(surfaces, surface),
    ensures
        update_order(surfaces, surface).no_duplicates(),
        forall|x: int| #[trigger]
            update_order(surfaces, surface).contains(x) <==> x == surface || {
                &&& 0 <= x < surfaces.len()
                &&& waits(surfaces, x)
                &&& surfaces[x].parent matches Some(parent)
                &&& update_order(surfaces, surface).contains(parent as int)
            },
{
    let depth = surfaces.len();
    lemma_order_once(surfaces, surface, depth);
    lemma_update_ends(surfaces, surface);
    assert forall|x: int| #[trigger]
        update_order(surfaces, surface).contains(x) <==> x == surface || {
            &&& 0 <= x < surfaces.len()
            &&& waits(surfaces, x)
            &&& surfaces[x].parent matches Some(parent)
            &&& update_order(surfaces, surface).contains(parent as int)
        } by {
        lemma_order_member(surfaces, surface, depth, x);
        if update_order(surfaces, surface).contains(x) && x != surface {
            lemma_order_from_parent(surfaces, surface, depth, x);
        }
        if 0 <= x < surfaces.len() && waits(surfaces, x) {
            if let Some(parent) = surfaces[x].parent {
                if update_order(surfaces, surface).contains(parent as int) {
                    lemma_order_closed(surfaces, surface, depth, parent as int, x);
                }
            }
        }
    }
}

/// What the filters said at earlier commits does not matter for a commit.
pub proof fn commits_ask_anew(scene: Scene, earlier: Seq<bool>, answers: Seq<bool>, surface: usize)
    ensures
        scene.asked(earlier).asked(answers).committed(surface) == scene.asked(answers).committed(
            surface,
        ),
{
    assert(scene.asked(earlier).asked(answers).surfaces =~= scene.asked(answers).surfaces);
}

pub(crate) proof fn lemma_all_handled(scene: Scene, surface: usize, handlers: Seq<CommitHandler>)
    requires
        scene.links(),
        surface < scene.surfaces.len(),
        forall|j: int|
            0 <= j < handlers.len() ==> #[trigger] handler_links(
                handlers[j],
                scene.toplevels.len(),
                scene.popups.len(),
            ),
    ensures
        ({
            let (after, kept) = scene.all_handled(surface, handlers);
            &&& after.links()
            &&& after.surfaces == scene.surfaces
            &&& after.xdg_surfaces == scene.xdg_surfaces
            &&& after.popups == scene.popups
            &&& after.toplevels.len() == scene.toplevels.len()
            &&& forall|j: int|
                0 <= j < kept.len() ==> #[trigger] handler_links(
                    kept[j],
                    scene.toplevels.len(),
                    scene.popups.len(),
                )
        }),
    decreases handlers.len(),
{
    if handlers.len() > 0 {
        assert forall|j: int| 0 <= j < handlers.drop_last().len() implies #[trigger] handler_links(
            handlers.drop_last()[j],
            scene.toplevels.len(),
            scene.popups.len(),
        ) by {
            assert(handlers.drop_last()[j] == handlers[j]);
        }
        lemma_all_handled(scene, surface, handlers.drop_last());
        let before = scene.all_handled(surface, handlers.drop_last()).0;
        assert(handlers.last() == handlers[handlers.len() - 1]);
        assert(handler_links(
            handlers[handlers.len() - 1],
            scene.toplevels.len(),
            scene.popups.len(),
        ));
        lemma_handled_wf(before, surface, handlers.last());
    }
}

/// The surface once its pending state is committed.
pub(crate) open spec fn applied(scene: Scene, surface: usize) -> Scene {
    let s = scene.surfaces[surface as int];
    scene.with_surface(
        surface as int,
        SurfaceView { state: s.state.committed(s.requires_sync()), ..s },
    )
}

/// The scene once the commit handlers of a surface have run.
pub(crate) open spec fn handlers_run(scene: Scene, surface: usize) -> Scene {
    let (handled, kept) = applied(scene, surface).all_handled(
        surface,
        scene.surfaces[surface as int].on_commit_handlers,
    );
    handled.with_surface(
        surface as int,
        SurfaceView { on_commit_handlers: kept, ..handled.surfaces[surface as int] },
    )
}

pub(crate) proof fn lemma_handlers_run(scene: Scene, surface: usize)
    requires
        is_linked(scene.surfaces),
        scene.links(),
        surface < scene.surfaces.len(),
    ensures
        ({
            let s = scene.surfaces[surface as int];
            let done = handlers_run(scene, surface);
            &&& is_linked(done.surfaces)
            &&& done.links()
            &&& same_tree(scene.surfaces, done.surfaces)
            &&& done.surfaces[surface as int].state == s.state.committed(s.requires_sync())
            &&& forall|i: int|
                0 <= i < scene.surfaces.len() && i != surface ==> #[trigger] done.surfaces[i]
                    == scene.surfaces[i]
            &&& scene.committed(surface) == if s.requires_sync() {
                done
            } else {
                done.shown(update_order(scene.surfaces, surface as int))
            }
        }),
{
    let s = scene.surfaces[surface as int];
    let view = SurfaceView { state: s.state.committed(s.requires_sync()), ..s };
    lemma_relinked(scene, surface as int, view);
    lemma_all_handled(applied(scene, surface), surface, s.on_commit_handlers);
    let (handled, kept) = applied(scene, surface).all_handled(surface, s.on_commit_handlers);
    let done = handlers_run(scene, surface);
    lemma_relinked(
        handled,
        surface as int,
        SurfaceView { on_commit_handlers: kept, ..handled.surfaces[surface as int] },
    );
    assert(same_tree(scene.surfaces, done.surfaces));
    lemma_same_order(scene.surfaces, done.surfaces, surface as int, scene.surfaces.len());
}

/// Commits keep all surfaces where they are and everything that they name.
pub proof fn commits_keep_the_scene_whole(scene: Scene, surface: usize)
    requires
        is_linked(scene.surfaces),
        scene.links(),
        surface < scene.surfaces.len(),
    ensures
        is_linked(scene.committed(surface).surfaces),
        scene.committed(surface).links(),
        same_tree(scene.surfaces, scene.committed(surface).surfaces),
{
    lemma_handlers_run(scene, surface);
    let done = handlers_run(scene, surface);
    let order = update_order(scene.surfaces, surface as int);
    lemma_shown_wf(done, order);
    lemma_shown_tree(done, order);
    let after = scene.committed(surface);
    assert forall|i: int| 0 <= i < scene.surfaces.len() implies {
        &&& (#[trigger] scene.surfaces[i]).children == after.surfaces[i].children
        &&& scene.surfaces[i].parent == after.surfaces[i].parent
        &&& scene.surfaces[i].alive == after.surfaces[i].alive
        &&& scene.surfaces[i].requires_sync() == after.surfaces[i].requires_sync()
    } by {
        assert(done.surfaces[i].children == after.surfaces[i].children);
    }
}

/// What a commit changes of the states of the surfaces. A surface that waits for its parent
/// changes nothing of what any surface shows. Any other shows its newest state, and with it
/// every surface that is updated with it shows what was set aside for it; no other surface
/// changes. No frame callback is lost, answered twice or moved before another.
pub proof fn commits_update_states(scene: Scene, surface: usize)
    requires
        is_linked(scene.surfaces),
        scene.links(),
        surface < scene.surfaces.len(),
    ensures
        ({
            let before = scene.surfaces;
            let after = scene.committed(surface).surfaces;
            let order = update_order(before, surface as int);
            &&& after.len() == before.len()
            &&& before[surface as int].requires_sync() ==> {
                &&& after[surface as int].state == before[surface as int].state.committed(true)
                &&& forall|i: int|
                    0 <= i < before.len() ==> (#[trigger] after[i]).state.current
                        == before[i].state.current
                &&& forall|i: int|
                    0 <= i < before.len() && i != surface ==> (#[trigger] after[i]).state
                        == before[i].state
            }
            &&& !before[surface as int].requires_sync() ==> {
                &&& after[surface as int].state == before[surface as int].state.committed(false)
                &&& forall|i: int|
                    0 <= i < before.len() && i != surface ==> (#[trigger] after[i]).state == (
                    if order.contains(i) {
                        before[i].state.updated()
                    } else {
                        before[i].state
                    })
            }
            &&& forall|i: int|
                0 <= i < before.len() ==> (#[trigger] after[i]).state.callbacks()
                    == before[i].state.callbacks()
        }),
{
    let s = scene.surfaces[surface as int];
    let wait = s.requires_sync();
    lemma_handlers_run(scene, surface);
    lemma_order_member(
        scene.surfaces,
        surface as int,
        scene.surfaces.len(),
        surface as int,
    );
    let after = scene.committed(surface).surfaces;
    assert forall|i: int| 0 <= i < scene.surfaces.len() implies (
    #[trigger] after[i]).state.callbacks() == scene.surfaces[i].state.callbacks() by {
        commits_keep_callbacks(scene.surfaces[i].state, wait);
        commits_keep_callbacks(scene.surfaces[i].state.committed(wait), wait);
    }
}

/// What a waiting surface has committed is shown with the commit of its parent, and then it
/// is what an immediate commit would have shown.
pub proof fn waiting_commits_show_with_the_parent(
    scene: Scene,
    child: usize,
    parent: usize,
)
    requires
        is_linked(scene.surfaces),
        scene.links(),
        child < scene.surfaces.len(),
        parent < scene.surfaces.len(),
        scene.surfaces[child as int].alive,
        scene.surfaces[child as int].requires_sync(),
        scene.surfaces[child as int].parent == Some(parent),
        !scene.surfaces[parent as int].requires_sync(),
    ensures
        ({
            let before = scene.surfaces[child as int].state;
            let waiting = scene.committed(child);
            let shown = waiting.committed(parent);
            &&& waiting.surfaces[child as int].state.current == before.current
            &&& shown.surfaces[child as int].state == before.committed(false)
        }),
{
    let before = scene.surfaces[child as int].state;
    let waiting = scene.committed(child);
    commits_update_states(scene, child);
    commits_keep_the_scene_whole(scene, child);
    assert(scene.surfaces[child as int].alive == waiting.surfaces[child as int].alive);
    assert(scene.surfaces[parent as int].requires_sync()
        == waiting.surfaces[parent as int].requires_sync());
    commits_update_states(waiting, parent);
    lemma_does_not_wait(waiting.surfaces, parent as int);
    updates_reach_waiting_surfaces(waiting.surfaces, parent as int);
    let order = update_order(waiting.surfaces, parent as int);
    assert(order.contains(parent as int));
    assert(order.contains(child as int));
    waiting_defers_commit(before);
}

/// A toplevel is told its configuration on the first commit after it was made and on no later
/// one. It is handed over to be mapped exactly when it has no panel item, the client has
/// answered a configuration and the surface has a buffer with pixels in it; from then on its
/// commit handler is gone.
pub proof fn toplevels_map_when_ready(
    scene: Scene,
    surface: usize,
    toplevel: usize,
    first_commit: bool,
)
    requires
        scene.toplevels[toplevel as int].alive,
    ensures
        ({
            let t = scene.toplevels[toplevel as int];
            let (after, kept) = scene.handled(
                surface,
                CommitHandler::Toplevel { toplevel, first_commit },
            );
            let ready = t.mapped is None && scene.xdg_surfaces[t.xdg_surface as int].configured
                && scene.surfaces[surface as int].state.current.has_valid_buffer();
            let added = after.actions.skip(scene.actions.len() as int);
            &&& scene.actions.is_prefix_of(after.actions)
            &&& added.contains(Action::MapToplevel { toplevel }) <==> ready
            &&& added.contains(Action::Reconfigure { toplevel }) <==> first_commit
            &&& kept is None <==> ready
            &&& kept matches Some(handler) ==> handler == (CommitHandler::Toplevel {
                toplevel,
                first_commit: false,
            })
        }),
{
    let t = scene.toplevels[toplevel as int];
    let (after, kept) = scene.handled(
        surface,
        CommitHandler::Toplevel { toplevel, first_commit },
    );
    let n = scene.actions.len() as int;
    let added = after.actions.skip(n);
    assert(scene.actions =~= after.actions.take(n));
    if first_commit {
        assert(added[0] == Action::Reconfigure { toplevel });
    }
    let ready = t.mapped is None && scene.xdg_surfaces[t.xdg_surface as int].configured
        && scene.surfaces[surface as int].state.current.has_valid_buffer();
    if ready {
        assert(added[added.len() - 1] == Action::MapToplevel { toplevel });
    }
}

} // verus!
