//! What holds of windows and popups over any number of commits.
use crate::client::ClientView;
use crate::commit_laws::{applied, handlers_run, lemma_all_handled, lemma_handlers_run};
use crate::compositor::Action;
use crate::protocols::wl::surface::CommitHandler;
use crate::protocols::xdg::backend::{child_id, ShellCall};
use crate::protocols::xdg::popup::Popup;
use crate::protocols::xdg::surface::xdg_surface_named;
use crate::scene::{
    handler_links, is_linked, lemma_asked_wf, lemma_handled_wf, lemma_relinked, update_order, Scene,
};
use crate::types::{ChildState, Geometry, InputRegions, ObjectId, SurfaceId, SurfaceUpdateTarget};
use vstd::prelude::*;

verus! {

/// How often an action occurs in a list.
pub open spec fn times(actions: Seq<Action>, action: Action) -> nat
    decreases actions.len(),
{
    if actions.len() == 0 {
        0
    } else {
        times(actions.drop_last(), action) + if actions.last() == action {
            1nat
        } else {
            0nat
        }
    }
}

proof fn lemma_times_push(actions: Seq<Action>, last: Action, action: Action)
    ensures
        times(actions.push(last), action) == times(actions, action) + if last == action {
            1nat
        } else {
            0nat
        },
{
    assert(actions.push(last).drop_last() =~= actions);
}

proof fn lemma_times_apart(a: Seq<Action>, b: Seq<Action>, action: Action)
    requires
        forall|i: int| 0 <= i < b.len() ==> #[trigger] b[i] != action,
    ensures
        times(a + b, action) == times(a, action),
    decreases b.len(),
{
    if b.len() == 0 {
        assert(a + b =~= a);
    } else {
        assert((a + b).drop_last() =~= a + b.drop_last());
        assert((a + b).last() == b[b.len() - 1]);
        assert forall|i: int| 0 <= i < b.drop_last().len() implies #[trigger] b.drop_last()[i]
            != action by {
            assert(b.drop_last()[i] == b[i]);
        }
        lemma_times_apart(a, b.drop_last(), action);
    }
}

/// Whether an action shows a buffer.
spec fn shows_buffer(action: Action) -> bool {
    action matches Action::Shell { call: ShellCall::UpdateSurfaceDmatex { .. }, .. }
}

/// Refreshed surfaces have their buffers shown, and nothing else is done for them.
proof fn lemma_order_shows(scene: Scene, order: Seq<int>)
    ensures
        forall|i: int|
            0 <= i < scene.order_actions(order).len() ==> shows_buffer(
                #[trigger] scene.order_actions(order)[i],
            ),
    decreases order.len(),
{
    if order.len() > 0 {
        lemma_order_shows(scene, order.drop_last());
        let first = scene.order_actions(order.drop_last());
        let last = scene.refreshed(order).updated_actions(order.last());
        let all = scene.order_actions(order);
        assert(all == first + last);
        assert forall|i: int| 0 <= i < all.len() implies shows_buffer(#[trigger] all[i]) by {
            if i < first.len() {
                assert(all[i] == first[i]);
            } else {
                assert(all[i] == last[i - first.len()]);
            }
        }
    }
}

/// Whether two scenes agree on everything by which commit handlers decide what to do.
spec fn alike(a: Scene, b: Scene) -> bool {
    &&& a.surfaces == b.surfaces
    &&& a.xdg_surfaces == b.xdg_surfaces
    &&& a.popups == b.popups
    &&& a.toplevels.len() == b.toplevels.len()
    &&& forall|i: int|
        0 <= i < a.toplevels.len() ==> {
            &&& (#[trigger] b.toplevels[i]).alive == a.toplevels[i].alive
            &&& b.toplevels[i].xdg_surface == a.toplevels[i].xdg_surface
            &&& (b.toplevels[i].mapped is Some <==> a.toplevels[i].mapped is Some)
        }
}

proof fn lemma_handled_alike(scene: Scene, surface: usize, handler: CommitHandler)
    requires
        scene.links(),
        surface < scene.surfaces.len(),
        handler_links(handler, scene.toplevels.len(), scene.popups.len()),
    ensures
        alike(scene, scene.handled(surface, handler).0),
{
}

/// Commit handlers, those of a list one after the other, change nothing by which they decide.
proof fn lemma_all_handled_alike(scene: Scene, surface: usize, handlers: Seq<CommitHandler>)
    requires
        scene.links(),
        surface < scene.surfaces.len(),
        all_linked(scene, handlers),
    ensures
        alike(scene, scene.all_handled(surface, handlers).0),
        scene.all_handled(surface, handlers).0.links(),
    decreases handlers.len(),
{
    if handlers.len() > 0 {
        lemma_linked_parts(scene, handlers);
        lemma_all_handled_alike(scene, surface, handlers.drop_last());
        let here = scene.all_handled(surface, handlers.drop_last()).0;
        lemma_handled_alike(here, surface, handlers.last());
        lemma_handled_wf(here, surface, handlers.last());
    }
}

/// Whether what some handlers are for is in a scene.
spec fn all_linked(scene: Scene, handlers: Seq<CommitHandler>) -> bool {
    forall|j: int|
        0 <= j < handlers.len() ==> #[trigger] handler_links(
            handlers[j],
            scene.toplevels.len(),
            scene.popups.len(),
        )
}

proof fn lemma_linked_parts(scene: Scene, handlers: Seq<CommitHandler>)
    requires
        handlers.len() > 0,
        all_linked(scene, handlers),
    ensures
        all_linked(scene, handlers.drop_last()),
        handler_links(handlers.last(), scene.toplevels.len(), scene.popups.len()),
{
    assert forall|j: int| 0 <= j < handlers.drop_last().len() implies #[trigger] handler_links(
        handlers.drop_last()[j],
        scene.toplevels.len(),
        scene.popups.len(),
    ) by {
        assert(handler_links(handlers[j], scene.toplevels.len(), scene.popups.len()));
    }
    assert(handler_links(
        handlers[handlers.len() - 1],
        scene.toplevels.len(),
        scene.popups.len(),
    ));
}

/// Whether a commit handler is for a toplevel.
pub open spec fn is_for_toplevel(handler: CommitHandler, toplevel: usize) -> bool {
    match handler {
        CommitHandler::Toplevel { toplevel: t, .. } => t == toplevel,
        CommitHandler::Popup { .. } => false,
    }
}

/// Those of some commit handlers that are for a toplevel.
pub open spec fn toplevel_handlers(handlers: Seq<CommitHandler>, toplevel: usize) -> Seq<
    CommitHandler,
>
    decreases handlers.len(),
{
    if handlers.len() == 0 {
        Seq::empty()
    } else {
        let rest = toplevel_handlers(handlers.drop_last(), toplevel);
        if is_for_toplevel(handlers.last(), toplevel) {
            rest.push(handlers.last())
        } else {
            rest
        }
    }
}

proof fn lemma_toplevel_handlers_push(
    handlers: Seq<CommitHandler>,
    last: CommitHandler,
    toplevel: usize,
)
    ensures
        toplevel_handlers(handlers.push(last), toplevel) == if is_for_toplevel(last, toplevel) {
            toplevel_handlers(handlers, toplevel).push(last)
        } else {
            toplevel_handlers(handlers, toplevel)
        },
{
    assert(handlers.push(last).drop_last() =~= handlers);
}

proof fn lemma_no_toplevel_handlers(handlers: Seq<CommitHandler>, toplevel: usize)
    requires
        forall|j: int|
            0 <= j < handlers.len() ==> !is_for_toplevel(#[trigger] handlers[j], toplevel),
    ensures
        toplevel_handlers(handlers, toplevel).len() == 0,
    decreases handlers.len(),
{
    if handlers.len() > 0 {
        assert(!is_for_toplevel(handlers[handlers.len() - 1], toplevel));
        assert forall|j: int| 0 <= j < handlers.drop_last().len() implies !is_for_toplevel(
            #[trigger] handlers.drop_last()[j],
            toplevel,
        ) by {
            assert(handlers.drop_last()[j] == handlers[j]);
        }
        lemma_no_toplevel_handlers(handlers.drop_last(), toplevel);
    }
}

/// The handler of a toplevel that is to be mapped.
pub open spec fn mapping(toplevel: usize, first_commit: bool) -> CommitHandler {
    CommitHandler::Toplevel { toplevel, first_commit }
}

/// Whether a toplevel without a panel item has all that it takes to be mapped.
spec fn maps(scene: Scene, surface: usize, toplevel: usize) -> bool {
    let t = scene.toplevels[toplevel as int];
    &&& t.mapped is None
    &&& scene.xdg_surfaces[t.xdg_surface as int].configured
    &&& scene.surfaces[surface as int].state.current.has_valid_buffer()
}

proof fn lemma_toplevel_handled(
    scene: Scene,
    surface: usize,
    handlers: Seq<CommitHandler>,
    toplevel: usize,
)
    requires
        scene.links(),
        surface < scene.surfaces.len(),
        all_linked(scene, handlers),
        toplevel < scene.toplevels.len(),
        scene.toplevels[toplevel as int].alive,
        toplevel_handlers(handlers, toplevel).len() <= 1,
    ensures
        ({
            let mine = toplevel_handlers(handlers, toplevel);
            let (after, kept) = scene.all_handled(surface, handlers);
            let reconfigure = Action::Reconfigure { toplevel };
            let map = Action::MapToplevel { toplevel };
            if mine.len() == 0 {
                &&& toplevel_handlers(kept, toplevel).len() == 0
                &&& times(after.actions, reconfigure) == times(scene.actions, reconfigure)
                &&& times(after.actions, map) == times(scene.actions, map)
            } else {
                &&& toplevel_handlers(kept, toplevel) == if maps(scene, surface, toplevel) {
                    Seq::empty()
                } else {
                    seq![mapping(toplevel, false)]
                }
                &&& times(after.actions, reconfigure) == times(scene.actions, reconfigure) + if (
                mine[0] == mapping(toplevel, true)) {
                    1nat
                } else {
                    0nat
                }
                &&& times(after.actions, map) == times(scene.actions, map) + if maps(
                    scene,
                    surface,
                    toplevel,
                ) {
                    1nat
                } else {
                    0nat
                }
            }
        }),
    decreases handlers.len(),
{
    if handlers.len() > 0 {
        let last = handlers.last();
        let rest = handlers.drop_last();
        lemma_linked_parts(scene, handlers);
        lemma_all_handled_alike(scene, surface, rest);
        lemma_toplevel_handled(scene, surface, rest, toplevel);
        let (here, kept) = scene.all_handled(surface, rest);
        let (after, next) = here.handled(surface, last);
        if let Some(next) = next {
            lemma_toplevel_handlers_push(kept, next, toplevel);
        }
        lemma_handled_times(here, surface, last, Action::Reconfigure { toplevel });
        lemma_handled_times(here, surface, last, Action::MapToplevel { toplevel });
        if is_for_toplevel(last, toplevel) {
            assert(toplevel_handlers(rest, toplevel) =~= Seq::empty());
            assert(toplevel_handlers(kept, toplevel) =~= Seq::empty());
            assert(toplevel_handlers(handlers, toplevel)[0] == last);
            assert(Seq::<CommitHandler>::empty().push(mapping(toplevel, false)) =~= seq![
                mapping(toplevel, false),
            ]);
        }
    }
}

/// How often a commit handler adds an action that configures or maps a toplevel or adds a
/// child.
spec fn handler_times(
    scene: Scene,
    surface: usize,
    handler: CommitHandler,
    action: Action,
) -> nat {
    let adds = match (handler, action) {
        (
            CommitHandler::Toplevel { toplevel: t, first_commit },
            Action::Reconfigure { toplevel },
        ) => t == toplevel && scene.toplevels[t as int].alive && first_commit,
        (
            CommitHandler::Toplevel { toplevel: t, .. },
            Action::MapToplevel { toplevel },
        ) => t == toplevel && scene.toplevels[t as int].alive && maps(scene, surface, t),
        (
            CommitHandler::Popup { popup, info },
            Action::Shell { toplevel, call: ShellCall::CreateChild { info: i } },
        ) => {
            &&& i == info
            &&& scene.panel_item(surface as int) == Some(toplevel)
            &&& child_id(scene.surfaces[surface as int].surface_id) is Some
            &&& appears(scene, surface, popup)
        },
        _ => false,
    };
    if adds {
        1
    } else {
        0
    }
}

/// Whether a popup has all that it takes to be added to the panel item of its surface.
spec fn appears(scene: Scene, surface: usize, popup: usize) -> bool {
    let p = scene.popups[popup as int];
    &&& p.alive
    &&& scene.panel_item(surface as int) is Some
    &&& scene.xdg_surfaces[p.surface as int].configured
    &&& scene.surfaces[surface as int].state.current.has_valid_buffer()
}

/// Whether an action configures or maps a toplevel or adds a child.
spec fn sets_up(action: Action) -> bool {
    match action {
        Action::Reconfigure { .. } => true,
        Action::MapToplevel { .. } => true,
        Action::Shell { call: ShellCall::CreateChild { .. }, .. } => true,
        _ => false,
    }
}

proof fn lemma_handled_times(scene: Scene, surface: usize, handler: CommitHandler, action: Action)
    requires
        sets_up(action),
    ensures
        times(scene.handled(surface, handler).0.actions, action) == times(scene.actions, action)
            + handler_times(scene, surface, handler, action),
{
    let after = scene.handled(surface, handler).0;
    match handler {
        CommitHandler::Toplevel { toplevel, first_commit } => {
            let reconfigure = Action::Reconfigure { toplevel };
            let first = if first_commit {
                scene.actions.push(reconfigure)
            } else {
                scene.actions
            };
            lemma_times_push(scene.actions, reconfigure, action);
            lemma_times_push(first, Action::MapToplevel { toplevel }, action);
            if after.actions.len() > first.len() {
                lemma_times_push(first, after.actions.last(), action);
                assert(after.actions =~= first.push(after.actions.last()));
            }
        },
        CommitHandler::Popup { popup, info } => {
            if after.actions.len() > scene.actions.len() {
                lemma_times_push(scene.actions, after.actions.last(), action);
                assert(after.actions =~= scene.actions.push(after.actions.last()));
            }
        },
    }
}

/// A commit does what its handlers do, and shows buffers.
proof fn lemma_commit(scene: Scene, surface: usize, action: Action)
    requires
        is_linked(scene.surfaces),
        scene.links(),
        surface < scene.surfaces.len(),
        sets_up(action),
    ensures
        ({
            let handlers = scene.surfaces[surface as int].on_commit_handlers;
            let (handled, kept) = applied(scene, surface).all_handled(surface, handlers);
            let after = scene.committed(surface);
            &&& applied(scene, surface).links()
            &&& all_linked(applied(scene, surface), handlers)
            &&& after.surfaces[surface as int].on_commit_handlers == kept
            &&& after.toplevels == handled.toplevels
            &&& after.popups == scene.popups
            &&& times(after.actions, action) == times(handled.actions, action)
        }),
{
    let s = scene.surfaces[surface as int];
    let handlers = s.on_commit_handlers;
    lemma_relinked(scene, surface as int, applied(scene, surface).surfaces[surface as int]);
    assert(all_linked(applied(scene, surface), handlers));
    lemma_all_handled(applied(scene, surface), surface, handlers);
    lemma_handlers_run(scene, surface);
    let done = handlers_run(scene, surface);
    let order = update_order(scene.surfaces, surface as int);
    lemma_order_shows(done, order);
    let shown = done.order_actions(order);
    assert forall|i: int| 0 <= i < shown.len() implies #[trigger] shown[i] != action by {
        assert(shows_buffer(shown[i]));
    }
    lemma_times_apart(done.actions, shown, action);
}

/// Whether a commit of a surface finds its toplevel ready to be mapped: it has no panel item,
/// the client has answered a configuration, and what the commit makes current has a buffer
/// with pixels in it.
pub open spec fn ready_to_map(scene: Scene, surface: usize, toplevel: usize) -> bool {
    let t = scene.toplevels[toplevel as int];
    let s = scene.surfaces[surface as int];
    &&& t.mapped is None
    &&& scene.xdg_surfaces[t.xdg_surface as int].configured
    &&& s.state.committed(s.requires_sync()).current.has_valid_buffer()
}

/// Whether a commit of a surface finds its popup ready to be added to the panel item of the
/// surface: there is one, the client has answered a configuration, and what the commit makes
/// current has a buffer with pixels in it.
pub open spec fn ready_to_appear(scene: Scene, surface: usize, popup: usize) -> bool {
    let p = scene.popups[popup as int];
    let s = scene.surfaces[surface as int];
    &&& scene.panel_item(surface as int) is Some
    &&& scene.xdg_surfaces[p.surface as int].configured
    &&& s.state.committed(s.requires_sync()).current.has_valid_buffer()
}

/// A commit: the scene that it finds, and what the filters say then.
pub ghost struct Commit {
    pub before: Scene,
    pub answers: Seq<bool>,
}

impl Commit {
    /// Whether the surface is there and all that is named.
    pub open spec fn whole(self, surface: usize) -> bool {
        &&& is_linked(self.before.surfaces)
        &&& self.before.links()
        &&& surface < self.before.surfaces.len()
    }

    /// The scene once the filters were asked.
    pub open spec fn scene(self) -> Scene {
        self.before.asked(self.answers)
    }

    /// The scene after the commit of a surface.
    pub open spec fn after(self, surface: usize) -> Scene {
        self.scene().committed(surface)
    }

    /// The commit handlers that the commit of a surface finds.
    pub open spec fn handlers(self, surface: usize) -> Seq<CommitHandler> {
        self.before.surfaces[surface as int].on_commit_handlers
    }

    /// The commit handlers that the commit of a surface leaves.
    pub open spec fn kept(self, surface: usize) -> Seq<CommitHandler> {
        self.after(surface).surfaces[surface as int].on_commit_handlers
    }

    /// The commit handlers that the commit of a surface finds and that add a live popup as a
    /// child with a state.
    pub open spec fn waiting_children(self, surface: usize, info: ChildState) -> Seq<
        CommitHandler,
    > {
        child_handlers(self.before.popups, self.handlers(surface), info)
    }

    /// The commit handlers that the commit of a surface leaves and that add a live popup as a
    /// child with a state.
    pub open spec fn kept_children(self, surface: usize, info: ChildState) -> Seq<CommitHandler> {
        child_handlers(self.after(surface).popups, self.kept(surface), info)
    }

    /// How often the commit of a surface has an action done.
    pub open spec fn adds(self, surface: usize, action: Action) -> int {
        times(self.after(surface).actions, action) - times(self.before.actions, action)
    }
}

/// Whether a surface is committed again and again while its toplevel is alive. Between two
/// commits anything may happen that leaves the toplevel's own commit handlers alone: other
/// surfaces are committed, configurations answered, buffers attached, actions taken.
pub open spec fn toplevel_history(
    commits: Seq<Commit>,
    surface: usize,
    toplevel: usize,
    handlers: Seq<CommitHandler>,
) -> bool {
    &&& forall|i: int|
        0 <= i < commits.len() ==> {
            &&& (#[trigger] commits[i]).whole(surface)
            &&& toplevel < commits[i].before.toplevels.len()
            &&& commits[i].before.toplevels[toplevel as int].alive
        }
    &&& forall|i: int|
        0 <= i < commits.len() ==> toplevel_handlers(
            #[trigger] commits[i].handlers(surface),
            toplevel,
        ) == toplevel_handlers(
            if i == 0 {
                handlers
            } else {
                commits[i - 1].kept(surface)
            },
            toplevel,
        )
}

/// Whether none of the first `n` commits finds the toplevel ready to be mapped.
pub open spec fn none_ready_to_map(
    commits: Seq<Commit>,
    surface: usize,
    toplevel: usize,
    n: int,
) -> bool {
    forall|j: int|
        0 <= j < n ==> !ready_to_map((#[trigger] commits[j]).scene(), surface, toplevel)
}

/// Whether a commit is the first of some that finds the toplevel ready to be mapped.
pub open spec fn first_ready_to_map(
    commits: Seq<Commit>,
    surface: usize,
    toplevel: usize,
    i: int,
) -> bool {
    &&& ready_to_map(commits[i].scene(), surface, toplevel)
    &&& none_ready_to_map(commits, surface, toplevel, i)
}

/// What one commit does for a toplevel.
proof fn lemma_toplevel_commit(commit: Commit, surface: usize, toplevel: usize)
    requires
        commit.whole(surface),
        toplevel < commit.before.toplevels.len(),
        commit.before.toplevels[toplevel as int].alive,
        toplevel_handlers(commit.handlers(surface), toplevel).len() <= 1,
    ensures
        ({
            let mine = toplevel_handlers(commit.handlers(surface), toplevel);
            let ready = mine.len() == 1 && ready_to_map(commit.scene(), surface, toplevel);
            &&& toplevel_handlers(commit.kept(surface), toplevel) == if mine.len() == 1 && !ready {
                seq![mapping(toplevel, false)]
            } else {
                Seq::empty()
            }
            &&& commit.adds(surface, Action::Reconfigure { toplevel }) == if mine.len() == 1
                && mine[0] == mapping(toplevel, true) {
                1int
            } else {
                0int
            }
            &&& commit.adds(surface, Action::MapToplevel { toplevel }) == if ready {
                1int
            } else {
                0int
            }
        }),
{
    let scene = commit.scene();
    lemma_asked_wf(commit.before, commit.answers);
    assert(scene.surfaces[surface as int].on_commit_handlers == commit.handlers(surface));
    lemma_commit(scene, surface, Action::Reconfigure { toplevel });
    lemma_commit(scene, surface, Action::MapToplevel { toplevel });
    lemma_toplevel_handled(
        applied(scene, surface),
        surface,
        commit.handlers(surface),
        toplevel,
    );
    assert(maps(applied(scene, surface), surface, toplevel) == ready_to_map(
        scene,
        surface,
        toplevel,
    ));
    if toplevel_handlers(commit.kept(surface), toplevel).len() == 0 {
        assert(toplevel_handlers(commit.kept(surface), toplevel) =~= Seq::empty());
    }
}

/// Which handler of a toplevel the commits of a history find.
proof fn lemma_toplevel_history(
    commits: Seq<Commit>,
    surface: usize,
    toplevel: usize,
    handlers: Seq<CommitHandler>,
    i: int,
)
    requires
        toplevel_history(commits, surface, toplevel, handlers),
        toplevel_handlers(handlers, toplevel) == seq![mapping(toplevel, true)],
        0 <= i < commits.len(),
    ensures
        toplevel_handlers(commits[i].handlers(surface), toplevel) == if none_ready_to_map(
            commits,
            surface,
            toplevel,
            i,
        ) {
            seq![mapping(toplevel, i == 0)]
        } else {
            Seq::empty()
        },
    decreases i,
{
    let found = commits[i].handlers(surface);
    if i > 0 {
        let last = commits[i - 1];
        assert(last.whole(surface));
        lemma_toplevel_history(commits, surface, toplevel, handlers, i - 1);
        lemma_toplevel_commit(last, surface, toplevel);
        assert(none_ready_to_map(commits, surface, toplevel, i) == (none_ready_to_map(
            commits,
            surface,
            toplevel,
            i - 1,
        ) && !ready_to_map(last.scene(), surface, toplevel)));
    }
}

/// Once a client has got a toplevel, any number of commits of its surface ask for one
/// configuration, at the first of them, and hand the toplevel over to be mapped once, at the
/// first that finds it ready.
pub proof fn toplevels_are_set_up_once(
    scene: Scene,
    client: ClientView,
    xdg_surface: usize,
    toplevel_id: ObjectId,
    commits: Seq<Commit>,
)
    requires
        scene.links(),
        scene.toplevels.len() <= usize::MAX,
        xdg_surface < scene.xdg_surfaces.len(),
        scene.toplevel_requested(client, xdg_surface, toplevel_id).2 is Ok,
        ({
            let surface = scene.xdg_surfaces[xdg_surface as int].wl_surface;
            let made = scene.toplevel_requested(client, xdg_surface, toplevel_id).0;
            toplevel_history(
                commits,
                surface,
                scene.toplevels.len() as usize,
                made.surfaces[surface as int].on_commit_handlers,
            )
        }),
    ensures
        ({
            let surface = scene.xdg_surfaces[xdg_surface as int].wl_surface;
            let toplevel = scene.toplevels.len() as usize;
            forall|i: int|
                0 <= i < commits.len() ==> {
                    &&& (#[trigger] commits[i]).adds(surface, Action::Reconfigure { toplevel }) == (
                    if i == 0 {
                        1int
                    } else {
                        0int
                    })
                    &&& commits[i].adds(surface, Action::MapToplevel { toplevel }) == (
                    if first_ready_to_map(commits, surface, toplevel, i) {
                        1int
                    } else {
                        0int
                    })
                }
        }),
{
    let surface = scene.xdg_surfaces[xdg_surface as int].wl_surface;
    let toplevel = scene.toplevels.len() as usize;
    let made = scene.toplevel_requested(client, xdg_surface, toplevel_id).0;
    let before = scene.surfaces[surface as int].on_commit_handlers;
    let handlers = made.surfaces[surface as int].on_commit_handlers;
    assert forall|j: int| 0 <= j < before.len() implies !is_for_toplevel(
        #[trigger] before[j],
        toplevel,
    ) by {
        assert(handler_links(before[j], scene.toplevels.len(), scene.popups.len()));
    }
    lemma_no_toplevel_handlers(before, toplevel);
    lemma_toplevel_handlers_push(before, mapping(toplevel, true), toplevel);
    assert(toplevel_handlers(handlers, toplevel) =~= seq![mapping(toplevel, true)]);
    assert forall|i: int| 0 <= i < commits.len() implies {
        &&& (#[trigger] commits[i]).adds(surface, Action::Reconfigure { toplevel }) == (if i == 0 {
            1int
        } else {
            0int
        })
        &&& commits[i].adds(surface, Action::MapToplevel { toplevel }) == (if first_ready_to_map(
            commits,
            surface,
            toplevel,
            i,
        ) {
            1int
        } else {
            0int
        })
    } by {
        assert(commits[i].whole(surface));
        lemma_toplevel_history(commits, surface, toplevel, handlers, i);
        lemma_toplevel_commit(commits[i], surface, toplevel);
    }
}

/// A toplevel is handed over to be mapped at one commit at most.
pub proof fn toplevels_are_mapped_once(
    commits: Seq<Commit>,
    surface: usize,
    toplevel: usize,
    i: int,
    j: int,
)
    requires
        0 <= i < commits.len(),
        0 <= j < commits.len(),
        first_ready_to_map(commits, surface, toplevel, i),
        first_ready_to_map(commits, surface, toplevel, j),
    ensures
        i == j,
{
    if i < j {
        assert(ready_to_map(commits[i].scene(), surface, toplevel));
    }
    if j < i {
        assert(ready_to_map(commits[j].scene(), surface, toplevel));
    }
}

/// Whether a commit handler adds a live popup as a child with a state.
pub open spec fn is_for_child(popups: Seq<Popup>, handler: CommitHandler, info: ChildState) -> bool {
    match handler {
        CommitHandler::Toplevel { .. } => false,
        CommitHandler::Popup { popup, info: i } => popups[popup as int].alive && i == info,
    }
}

/// Those of some commit handlers that add a live popup as a child with a state.
pub open spec fn child_handlers(
    popups: Seq<Popup>,
    handlers: Seq<CommitHandler>,
    info: ChildState,
) -> Seq<CommitHandler>
    decreases handlers.len(),
{
    if handlers.len() == 0 {
        Seq::empty()
    } else {
        let rest = child_handlers(popups, handlers.drop_last(), info);
        if is_for_child(popups, handlers.last(), info) {
            rest.push(handlers.last())
        } else {
            rest
        }
    }
}

proof fn lemma_child_handlers_push(
    popups: Seq<Popup>,
    handlers: Seq<CommitHandler>,
    last: CommitHandler,
    info: ChildState,
)
    ensures
        child_handlers(popups, handlers.push(last), info) == if is_for_child(popups, last, info) {
            child_handlers(popups, handlers, info).push(last)
        } else {
            child_handlers(popups, handlers, info)
        },
{
    assert(handlers.push(last).drop_last() =~= handlers);
}

/// More popups leave alone which handlers are for those that were there.
proof fn lemma_child_handlers_grown(
    scene: Scene,
    popups: Seq<Popup>,
    handlers: Seq<CommitHandler>,
    info: ChildState,
)
    requires
        all_linked(scene, handlers),
        scene.popups.is_prefix_of(popups),
    ensures
        child_handlers(popups, handlers, info) == child_handlers(scene.popups, handlers, info),
    decreases handlers.len(),
{
    if handlers.len() > 0 {
        lemma_linked_parts(scene, handlers);
        lemma_child_handlers_grown(scene, popups, handlers.drop_last(), info);
        if let CommitHandler::Popup { popup, .. } = handlers.last() {
            assert(popups[popup as int] == scene.popups[popup as int]);
        }
    }
}

/// The action that adds a child to the panel item of a toplevel.
pub open spec fn creation(toplevel: usize, info: ChildState) -> Action {
    Action::Shell { toplevel, call: ShellCall::CreateChild { info } }
}

/// Whether a surface is a child of a toplevel's panel item.
pub open spec fn is_child(scene: Scene, toplevel: usize, id: u64, surface: usize) -> bool {
    scene.toplevels[toplevel as int].mapped matches Some(children) && children.contains_key(id)
        && children[id].surface == surface
}

proof fn lemma_child_handled(
    scene: Scene,
    surface: usize,
    handlers: Seq<CommitHandler>,
    popup: usize,
    info: ChildState,
    toplevel: usize,
)
    requires
        scene.links(),
        surface < scene.surfaces.len(),
        all_linked(scene, handlers),
        popup < scene.popups.len(),
        scene.popups[popup as int].alive,
        scene.surfaces[surface as int].surface_id == Some(
            SurfaceUpdateTarget::Child { id: info.id },
        ),
        child_handlers(scene.popups, handlers, info).len() == 0 || child_handlers(scene.popups, handlers, info) == seq![
            CommitHandler::Popup { popup, info },
        ],
    ensures
        ({
            let mine = child_handlers(scene.popups, handlers, info);
            let (after, kept) = scene.all_handled(surface, handlers);
            let added = mine.len() == 1 && appears(scene, surface, popup);
            &&& child_handlers(scene.popups, kept, info) == if added {
                Seq::empty()
            } else {
                mine
            }
            &&& times(after.actions, creation(toplevel, info)) == times(
                scene.actions,
                creation(toplevel, info),
            ) + if added && scene.panel_item(surface as int) == Some(toplevel) {
                1nat
            } else {
                0nat
            }
            &&& added && scene.panel_item(surface as int) == Some(toplevel) ==> is_child(
                after,
                toplevel,
                info.id,
                surface,
            )
        }),
    decreases handlers.len(),
{
    if handlers.len() > 0 {
        let last = handlers.last();
        let rest = handlers.drop_last();
        lemma_linked_parts(scene, handlers);
        lemma_all_handled_alike(scene, surface, rest);
        if is_for_child(scene.popups, last, info) {
            assert(child_handlers(scene.popups, handlers, info).drop_last() =~= child_handlers(scene.popups, rest, info));
        }
        lemma_child_handled(scene, surface, rest, popup, info, toplevel);
        let (here, kept) = scene.all_handled(surface, rest);
        let (after, next) = here.handled(surface, last);
        if let Some(next) = next {
            lemma_child_handlers_push(scene.popups, kept, next, info);
        }
        lemma_handled_times(here, surface, last, creation(toplevel, info));
        if is_for_child(scene.popups, last, info) {
            assert(child_handlers(scene.popups, rest, info) =~= Seq::empty());
            assert(child_handlers(scene.popups, handlers, info)[0] == last);
            assert(child_handlers(scene.popups, kept, info) =~= Seq::empty());
            assert(Seq::<CommitHandler>::empty().push(last) =~= seq![last]);
        }
    }
}

/// Whether a surface that is a child is committed again and again while its popup is alive.
/// Between two commits anything may happen that leaves alone the commit handlers that add the
/// child.
pub open spec fn popup_history(
    commits: Seq<Commit>,
    surface: usize,
    popup: usize,
    info: ChildState,
    waiting: Seq<CommitHandler>,
) -> bool {
    &&& forall|i: int|
        0 <= i < commits.len() ==> {
            let before = (#[trigger] commits[i]).before;
            &&& commits[i].whole(surface)
            &&& popup < before.popups.len()
            &&& before.popups[popup as int].alive
            &&& before.surfaces[surface as int].surface_id == Some(
                SurfaceUpdateTarget::Child { id: info.id },
            )
        }
    &&& forall|i: int|
        0 <= i < commits.len() ==> #[trigger] commits[i].waiting_children(surface, info) == if i
            == 0 {
            waiting
        } else {
            commits[i - 1].kept_children(surface, info)
        }
}

/// Whether none of the first `n` commits finds the popup ready to be added.
pub open spec fn none_ready_to_appear(
    commits: Seq<Commit>,
    surface: usize,
    popup: usize,
    n: int,
) -> bool {
    forall|j: int|
        0 <= j < n ==> !ready_to_appear((#[trigger] commits[j]).scene(), surface, popup)
}

/// Whether a commit is the first of some that finds the popup ready to be added.
pub open spec fn first_ready_to_appear(
    commits: Seq<Commit>,
    surface: usize,
    popup: usize,
    i: int,
) -> bool {
    &&& ready_to_appear(commits[i].scene(), surface, popup)
    &&& none_ready_to_appear(commits, surface, popup, i)
}

/// What one commit does for a popup.
proof fn lemma_popup_commit(
    commit: Commit,
    surface: usize,
    popup: usize,
    info: ChildState,
    toplevel: usize,
)
    requires
        commit.whole(surface),
        popup < commit.before.popups.len(),
        commit.before.popups[popup as int].alive,
        commit.before.surfaces[surface as int].surface_id == Some(
            SurfaceUpdateTarget::Child { id: info.id },
        ),
        ({
            let mine = commit.waiting_children(surface, info);
            mine.len() == 0 || mine == seq![CommitHandler::Popup { popup, info }]
        }),
    ensures
        ({
            let mine = commit.waiting_children(surface, info);
            let ready = mine.len() == 1 && ready_to_appear(commit.scene(), surface, popup);
            let here = commit.before.panel_item(surface as int) == Some(toplevel);
            &&& commit.kept_children(surface, info) == if ready {
                Seq::empty()
            } else {
                mine
            }
            &&& commit.adds(surface, creation(toplevel, info)) == if ready && here {
                1int
            } else {
                0int
            }
            &&& ready && here ==> is_child(commit.after(surface), toplevel, info.id, surface)
        }),
{
    let scene = commit.scene();
    lemma_asked_wf(commit.before, commit.answers);
    assert(scene.surfaces[surface as int].on_commit_handlers == commit.handlers(surface));
    lemma_commit(scene, surface, creation(toplevel, info));
    lemma_child_handled(
        applied(scene, surface),
        surface,
        commit.handlers(surface),
        popup,
        info,
        toplevel,
    );
    assert(applied(scene, surface).panel_item(surface as int) == scene.panel_item(
        surface as int,
    ));
    assert(appears(applied(scene, surface), surface, popup) == ready_to_appear(
        scene,
        surface,
        popup,
    ));
}

/// Which handler of a popup the commits of a history find.
proof fn lemma_popup_history(
    commits: Seq<Commit>,
    surface: usize,
    popup: usize,
    info: ChildState,
    waiting: Seq<CommitHandler>,
    i: int,
)
    requires
        popup_history(commits, surface, popup, info, waiting),
        waiting == seq![CommitHandler::Popup { popup, info }],
        0 <= i < commits.len(),
    ensures
        commits[i].waiting_children(surface, info) == if none_ready_to_appear(
            commits,
            surface,
            popup,
            i,
        ) {
            seq![CommitHandler::Popup { popup, info }]
        } else {
            Seq::empty()
        },
    decreases i,
{
    let found = commits[i].waiting_children(surface, info);
    if i > 0 {
        let last = commits[i - 1];
        assert(last.whole(surface));
        lemma_popup_history(commits, surface, popup, info, waiting, i - 1);
        lemma_popup_commit(last, surface, popup, info, 0);
        assert(none_ready_to_appear(commits, surface, popup, i) == (none_ready_to_appear(
            commits,
            surface,
            popup,
            i - 1,
        ) && !ready_to_appear(last.scene(), surface, popup)));
    }
}

/// What a panel shell is told of the popup `id` next to a surface: it is a child of the
/// surface, or of the toplevel where the surface is no child itself.
pub open spec fn popup_child(
    id: u64,
    parent: SurfaceUpdateTarget,
    geometry: Geometry,
) -> ChildState {
    ChildState {
        id,
        parent: match parent {
            SurfaceUpdateTarget::Child { id } => SurfaceId::Child { id },
            _ => SurfaceId::Toplevel,
        },
        geometry,
        z_order: 1,
        input_regions: InputRegions::Whole,
    }
}

/// Once a client has got a popup next to a part of a panel item, any number of commits of its
/// surface add it once, at the first that finds it ready, to the panel item that the surface
/// has then, and with the state that the request gave it. Another live popup of the same surface
/// that waits to be added with the very same state would be added as well, so there is none.
pub proof fn popups_are_added_once(
    scene: Scene,
    client: ClientView,
    xdg_surface: usize,
    sender_id: ObjectId,
    popup_id: ObjectId,
    parent: ObjectId,
    geometry: Geometry,
    child: u64,
    id: u64,
    target: SurfaceUpdateTarget,
    commits: Seq<Commit>,
)
    requires
        scene.popups.len() <= usize::MAX,
        xdg_surface < scene.xdg_surfaces.len(),
        scene.links(),
        ({
            let surface = scene.xdg_surfaces[xdg_surface as int].wl_surface;
            let place = xdg_surface_named(client, scene.xdg_surfaces, parent);
            let (made, _, answer) = scene.popup_requested(
                client,
                xdg_surface,
                sender_id,
                popup_id,
                Some(parent),
                geometry,
                child,
            );
            let beside = scene.xdg_surfaces[place->0 as int].wl_surface;
            let info = popup_child(id, target, geometry);
            &&& answer is Ok
            &&& place is Some && place->0 < scene.xdg_surfaces.len()
            &&& made.surfaces[surface as int].surface_id == Some(
                SurfaceUpdateTarget::Child { id },
            )
            &&& made.surfaces[beside as int].surface_id == Some(target)
            &&& child_handlers(
                scene.popups,
                scene.surfaces[surface as int].on_commit_handlers,
                info,
            ).len() == 0
            &&& popup_history(
                commits,
                surface,
                scene.popups.len() as usize,
                info,
                child_handlers(
                    made.popups,
                    made.surfaces[surface as int].on_commit_handlers,
                    info,
                ),
            )
        }),
    ensures
        ({
            let surface = scene.xdg_surfaces[xdg_surface as int].wl_surface;
            let popup = scene.popups.len() as usize;
            let info = popup_child(id, target, geometry);
            &&& forall|i: int, toplevel: usize|
                0 <= i < commits.len() ==> #[trigger] commits[i].adds(
                    surface,
                    creation(toplevel, info),
                ) == if first_ready_to_appear(commits, surface, popup, i)
                    && commits[i].before.panel_item(surface as int) == Some(toplevel) {
                    1int
                } else {
                    0int
                }
            &&& forall|i: int|
                0 <= i < commits.len() && #[trigger] first_ready_to_appear(
                    commits,
                    surface,
                    popup,
                    i,
                ) ==> is_child(
                    commits[i].after(surface),
                    commits[i].before.panel_item(surface as int)->0,
                    id,
                    surface,
                )
        }),
{
    let surface = scene.xdg_surfaces[xdg_surface as int].wl_surface;
    let popup = scene.popups.len() as usize;
    let info = popup_child(id, target, geometry);
    let made = scene.popup_requested(
        client,
        xdg_surface,
        sender_id,
        popup_id,
        Some(parent),
        geometry,
        child,
    ).0;
    let before = scene.surfaces[surface as int].on_commit_handlers;
    let handlers = made.surfaces[surface as int].on_commit_handlers;
    let handler = CommitHandler::Popup { popup, info };
    assert(handlers == before.push(handler));
    assert(all_linked(scene, before));
    lemma_child_handlers_grown(scene, made.popups, before, info);
    lemma_child_handlers_push(made.popups, before, handler, info);
    let waiting = child_handlers(made.popups, handlers, info);
    assert(waiting =~= seq![handler]);
    assert forall|i: int, toplevel: usize| 0 <= i < commits.len() implies #[trigger] commits[
        i
    ].adds(surface, creation(toplevel, info)) == if first_ready_to_appear(
        commits,
        surface,
        popup,
        i,
    ) && commits[i].before.panel_item(surface as int) == Some(toplevel) {
        1int
    } else {
        0int
    } by {
        assert(commits[i].whole(surface));
        lemma_popup_history(commits, surface, popup, info, waiting, i);
        lemma_popup_commit(commits[i], surface, popup, info, toplevel);
    }
    assert forall|i: int|
        0 <= i < commits.len() && #[trigger] first_ready_to_appear(
            commits,
            surface,
            popup,
            i,
        ) implies is_child(
        commits[i].after(surface),
        commits[i].before.panel_item(surface as int)->0,
        id,
        surface,
    ) by {
        let toplevel = commits[i].before.panel_item(surface as int)->0;
        assert(commits[i].whole(surface));
        lemma_popup_history(commits, surface, popup, info, waiting, i);
        lemma_popup_commit(commits[i], surface, popup, info, toplevel);
    }
}

/// A popup is added at one commit at most.
pub proof fn popups_appear_once(
    commits: Seq<Commit>,
    surface: usize,
    popup: usize,
    i: int,
    j: int,
)
    requires
        0 <= i < commits.len(),
        0 <= j < commits.len(),
        first_ready_to_appear(commits, surface, popup, i),
        first_ready_to_appear(commits, surface, popup, j),
    ensures
        i == j,
{
    if i < j {
        assert(ready_to_appear(commits[i].scene(), surface, popup));
    }
    if j < i {
        assert(ready_to_appear(commits[j].scene(), surface, popup));
    }
}

/// The commit of a surface leaves the commit handlers of every other surface alone.
pub proof fn commits_keep_other_handlers(
    scene: Scene,
    surface: usize,
    other: int,
)
    requires
        is_linked(scene.surfaces),
        scene.links(),
        surface < scene.surfaces.len(),
        0 <= other < scene.surfaces.len(),
        other != surface,
    ensures
        scene.committed(surface).surfaces[other].on_commit_handlers
            == scene.surfaces[other].on_commit_handlers,
{
    lemma_handlers_run(scene, surface);
}

/// A surface that is put below one surface and then below another stays the child of the first
/// alone, but shows up on the panel item of the second. Neither of the two moves.
pub proof fn first_parent_stays(scene: Scene, surface: usize, a: usize, b: usize)
    requires
        is_linked(scene.surfaces),
        surface < scene.surfaces.len(),
        a < scene.surfaces.len(),
        b < scene.surfaces.len(),
        surface != a,
        surface != b,
        a != b,
        scene.surfaces[surface as int].parent is None,
    ensures
        ({
            let after = scene.with_parent(surface, a).with_parent(surface, b);
            let s = surface as int;
            &&& after.surfaces[s].parent == Some(a)
            &&& after.surfaces[s].toplevel == scene.surfaces[b as int].toplevel
            &&& after.panel_item(s) == after.panel_item(b as int)
            &&& after.surfaces[a as int].children.contains(surface)
            &&& !after.surfaces[b as int].children.contains(surface)
            &&& after.surfaces[a as int].parent == scene.surfaces[a as int].parent
            &&& after.surfaces[b as int].parent == scene.surfaces[b as int].parent
            &&& after.surfaces[a as int].toplevel == scene.surfaces[a as int].toplevel
            &&& after.surfaces[b as int].toplevel == scene.surfaces[b as int].toplevel
        }),
{
    let after = scene.with_parent(surface, a).with_parent(surface, b);
    let n = scene.surfaces[a as int].children.len() as int;
    assert(after.surfaces[a as int].children[n] == surface);
    let others = scene.surfaces[b as int].children;
    if others.contains(surface) {
        let j = choose|j: int| 0 <= j < others.len() && others[j] == surface;
        assert(scene.surfaces[others[j] as int].parent == Some(b));
    }
}

} // verus!
