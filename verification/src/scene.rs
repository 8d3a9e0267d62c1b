//! What holds of all surfaces of a client together, and how it changes.
use crate::collections::Child;
use crate::compositor::Action;
use crate::protocols::wl::surface::{CommitFilter, CommitHandler, SurfaceView};
use crate::protocols::xdg::backend::{child_id, moved_child, ShellCall};
use crate::protocols::xdg::popup::Popup;
use crate::protocols::xdg::surface::Surface as XdgSurface;
use crate::protocols::xdg::toplevel::ToplevelView;
use crate::types::{ChildState, Geometry, SurfaceId, Vector2};
use vstd::prelude::*;

verus! {

/// All that a client shows, as sequences of what holds of each part.
#[verifier::ext_equal]
pub ghost struct Scene {
    pub surfaces: Seq<SurfaceView>,
    pub xdg_surfaces: Seq<XdgSurface>,
    pub toplevels: Seq<ToplevelView>,
    pub popups: Seq<Popup>,
    pub actions: Seq<Action>,
}

/// The children of a list of surfaces lie in the list and name their parent, and every
/// surface is the child of its parent exactly once.
pub open spec fn is_linked(surfaces: Seq<SurfaceView>) -> bool {
    &&& surfaces.len() <= usize::MAX
    &&& forall|p: int, j: int|
        0 <= p < surfaces.len() && 0 <= j < surfaces[p].children.len() ==> {
            let c = #[trigger] surfaces[p].children[j] as int;
            &&& 0 <= c < surfaces.len()
            &&& surfaces[c].parent == Some(p as usize)
        }
    &&& forall|p: int|
        0 <= p < surfaces.len() ==> (#[trigger] surfaces[p]).children.no_duplicates()
    &&& forall|c: int|
        0 <= c < surfaces.len() && (#[trigger] surfaces[c]).parent is Some ==> {
            let p = surfaces[c].parent->0 as int;
            &&& 0 <= p < surfaces.len()
            &&& surfaces[p].children.contains(c as usize)
        }
}

/// A size as a panel shell counts it.
pub open spec fn pixels(size: Vector2<usize>) -> Vector2<u32> {
    Vector2 { x: size.x as u32, y: size.y as u32 }
}

/// Whether a surface is updated together with its parent.
pub open spec fn waits(surfaces: Seq<SurfaceView>, surface: int) -> bool {
    surfaces[surface].alive && surfaces[surface].requires_sync()
}

/// A surface and those below it, down to a depth, that wait for its commit: first the
/// surface, then its waiting children in the order they were added, each followed by those
/// below it.
pub open spec fn sync_order(surfaces: Seq<SurfaceView>, surface: int, depth: nat) -> Seq<int>
    decreases depth, surfaces[surface].children.len() + 1,
{
    seq![surface] + child_order(surfaces, surface, surfaces[surface].children.len(), depth)
}

/// The part of [`sync_order`] that the first `n` children of a surface make up.
pub open spec fn child_order(
    surfaces: Seq<SurfaceView>,
    surface: int,
    n: nat,
    depth: nat,
) -> Seq<int>
    decreases depth, n,
{
    if n == 0 {
        Seq::empty()
    } else {
        let child = surfaces[surface].children[n - 1] as int;
        child_order(surfaces, surface, (n - 1) as nat, depth) + if waits(surfaces, child) && depth
            > 0 {
            sync_order(surfaces, child, (depth - 1) as nat)
        } else {
            Seq::empty()
        }
    }
}

/// A surface and those below it that wait for its commit, in the order in which they are
/// updated. None lies deeper than there are surfaces.
pub open spec fn update_order(surfaces: Seq<SurfaceView>, surface: int) -> Seq<int> {
    sync_order(surfaces, surface, surfaces.len())
}

/// Whether a list of surfaces leads down from its first, each of the others being a child of
/// the one before that waits for it.
pub open spec fn is_chain(surfaces: Seq<SurfaceView>, path: Seq<int>) -> bool {
    &&& path.len() > 0
    &&& forall|i: int| 0 <= i < path.len() ==> 0 <= #[trigger] path[i] < surfaces.len()
    &&& forall|i: int|
        0 < i < path.len() ==> {
            &&& surfaces[#[trigger] path[i]].parent == Some(path[i - 1] as usize)
            &&& waits(surfaces, path[i])
        }
}

/// Whether a surface waits for itself by way of its parents, so that an update of it would
/// have no end.
pub open spec fn waits_for_itself(surfaces: Seq<SurfaceView>, surface: int) -> bool {
    exists|path: Seq<int>|
        #[trigger] is_chain(surfaces, path) && path.len() > 1 && path[0] == surface && path.last()
            == surface
}

/// Whether nothing that waits for a surface lies deeper than a depth below it.
pub open spec fn ends(surfaces: Seq<SurfaceView>, surface: int, depth: nat) -> bool
    decreases depth,
{
    forall|j: int|
        #![trigger surfaces[surface].children[j]]
        0 <= j < surfaces[surface].children.len() && waits(
            surfaces,
            surfaces[surface].children[j] as int,
        ) ==> depth > 0 && ends(
            surfaces,
            surfaces[surface].children[j] as int,
            (depth - 1) as nat,
        )
}

/// Whether answers are what the filters of some surfaces say when they are asked.
pub open spec fn are_answers<F: Fn(CommitFilter) -> bool>(
    ask: F,
    surfaces: Seq<SurfaceView>,
    answers: Seq<bool>,
) -> bool {
    &&& answers.len() == surfaces.len()
    &&& forall|i: int|
        0 <= i < surfaces.len() ==> (#[trigger] surfaces[i].requires_parent_sync matches Some(
            filter,
        ) ==> ask.ensures((filter,), answers[i]))
}

/// Whether two lists of surfaces differ in nothing that [`update_order`] looks at.
pub open spec fn same_tree(a: Seq<SurfaceView>, b: Seq<SurfaceView>) -> bool {
    &&& a.len() == b.len()
    &&& forall|i: int|
        0 <= i < a.len() ==> {
            &&& (#[trigger] a[i]).children == b[i].children
            &&& a[i].parent == b[i].parent
            &&& a[i].alive == b[i].alive
            &&& a[i].requires_sync() == b[i].requires_sync()
        }
}

/// Whether what a handler is for is among so many toplevels and popups.
pub open spec fn handler_links(handler: CommitHandler, toplevels: nat, popups: nat) -> bool {
    match handler {
        CommitHandler::Toplevel { toplevel, .. } => toplevel < toplevels,
        CommitHandler::Popup { popup, .. } => popup < popups,
    }
}

/// Whether the children of a panel item are among so many surfaces.
pub open spec fn children_link(mapped: Option<Map<u64, Child>>, surfaces: nat) -> bool {
    mapped matches Some(children) ==> forall|id: u64| #[trigger]
        children.contains_key(id) ==> children[id].surface < surfaces
}

impl Scene {
    /// Every place that something names is there.
    pub open spec fn links(self) -> bool {
        &&& forall|i: int|
            0 <= i < self.surfaces.len() ==> {
                &&& (#[trigger] self.surfaces[i]).toplevel matches Some(t) ==> t
                    < self.toplevels.len()
                &&& forall|j: int|
                    0 <= j < self.surfaces[i].on_commit_handlers.len()
                        ==> #[trigger] handler_links(
                        self.surfaces[i].on_commit_handlers[j],
                        self.toplevels.len(),
                        self.popups.len(),
                    )
            }
        &&& forall|i: int|
            0 <= i < self.xdg_surfaces.len() ==> (#[trigger] self.xdg_surfaces[i]).wl_surface
                < self.surfaces.len()
        &&& forall|i: int|
            0 <= i < self.toplevels.len() ==> {
                &&& (#[trigger] self.toplevels[i]).wl_surface < self.surfaces.len()
                &&& self.toplevels[i].xdg_surface < self.xdg_surfaces.len()
                &&& children_link(self.toplevels[i].mapped, self.surfaces.len())
            }
        &&& forall|i: int|
            0 <= i < self.popups.len() ==> (#[trigger] self.popups[i]).surface
                < self.xdg_surfaces.len()
    }

    /// The place of the toplevel whose panel item shows a surface.
    pub open spec fn panel_item(self, surface: int) -> Option<usize> {
        match self.surfaces[surface].toplevel {
            Some(t) if self.toplevels[t as int].alive && self.toplevels[t as int].mapped is Some => Some(
                t,
            ),
            _ => None,
        }
    }

    /// How the current buffer of a surface is shown: on its panel item, where it has a buffer
    /// and a place there.
    pub open spec fn buffer_action(self, surface: int) -> Option<Action> {
        let s = self.surfaces[surface];
        match (s.state.current.buffer, self.panel_item(surface), s.surface_id) {
            (Some(buffer), Some(toplevel), Some(target)) => Some(
                Action::Shell {
                    toplevel,
                    call: ShellCall::UpdateSurfaceDmatex {
                        target,
                        buffer: buffer.id,
                        opaque: !buffer.transparent,
                    },
                },
            ),
            _ => None,
        }
    }

    /// What the handlers for an updated state do: each shows the current buffer.
    pub open spec fn updated_actions(self, surface: int) -> Seq<Action> {
        match self.buffer_action(surface) {
            Some(action) => Seq::new(
                self.surfaces[surface].on_updated_current_state_handlers.len(),
                |j: int| action,
            ),
            None => Seq::empty(),
        }
    }

    /// The scene in which what was set aside for the surfaces of a list is current.
    pub open spec fn refreshed(self, order: Seq<int>) -> Scene {
        Scene {
            surfaces: Seq::new(
                self.surfaces.len(),
                |i: int|
                    if order.contains(i) {
                        self.surfaces[i].refreshed()
                    } else {
                        self.surfaces[i]
                    },
            ),
            ..self
        }
    }

    /// What is done when the surfaces of a list, one after the other, were refreshed.
    pub open spec fn order_actions(self, order: Seq<int>) -> Seq<Action>
        decreases order.len(),
    {
        if order.len() == 0 {
            Seq::empty()
        } else {
            self.order_actions(order.drop_last()) + self.refreshed(order).updated_actions(
                order.last(),
            )
        }
    }

    /// The scene after the surfaces of a list were refreshed and shown one after the other.
    pub open spec fn shown(self, order: Seq<int>) -> Scene {
        Scene {
            actions: self.actions + self.order_actions(order),
            ..self.refreshed(order)
        }
    }

    /// The scene once the filters of the surfaces have said whether they wait for their
    /// parents.
    pub open spec fn asked(self, answers: Seq<bool>) -> Scene {
        Scene {
            surfaces: Seq::new(
                self.surfaces.len(),
                |i: int| self.surfaces[i].asked(answers[i]),
            ),
            ..self
        }
    }

    pub open spec fn with_surface(self, surface: int, view: SurfaceView) -> Scene {
        Scene { surfaces: self.surfaces.update(surface, view), ..self }
    }

    pub open spec fn with_toplevel(self, toplevel: int, view: ToplevelView) -> Scene {
        Scene { toplevels: self.toplevels.update(toplevel, view), ..self }
    }

    /// The scene after a commit of a surface: its pending state is committed, its commit
    /// handlers run, and, unless it waits for its parent, it and the surfaces below that wait
    /// for it are shown.
    pub open spec fn committed(self, surface: usize) -> Scene {
        let s = self.surfaces[surface as int];
        let wait = s.requires_sync();
        let (handled, kept) = self.with_surface(
            surface as int,
            SurfaceView { state: s.state.committed(wait), ..s },
        ).all_handled(surface, s.on_commit_handlers);
        let scene = handled.with_surface(
            surface as int,
            SurfaceView { on_commit_handlers: kept, ..handled.surfaces[surface as int] },
        );
        if wait {
            scene
        } else {
            scene.shown(update_order(scene.surfaces, surface as int))
        }
    }

    /// The scene once a surface has a parent. It joins the toplevel of the new parent; but
    /// the first parent it got stays its parent.
    pub open spec fn with_parent(self, surface: usize, parent: usize) -> Scene {
        let s = self.surfaces[surface as int];
        let p = self.surfaces[parent as int];
        if s.parent is Some {
            self.with_surface(surface as int, SurfaceView { toplevel: p.toplevel, ..s })
        } else {
            self.with_surface(
                surface as int,
                SurfaceView { toplevel: p.toplevel, parent: Some(parent), ..s },
            ).with_surface(
                parent as int,
                SurfaceView { children: p.children.push(surface), ..p },
            )
        }
    }

    pub open spec fn with_action(self, action: Action) -> Scene {
        Scene { actions: self.actions.push(action), ..self }
    }

    /// The scene once a panel item got a child, where the surface is one.
    pub open spec fn with_child(self, toplevel: usize, surface: usize, info: ChildState) -> Scene {
        let t = self.toplevels[toplevel as int];
        match (child_id(self.surfaces[surface as int].surface_id), t.mapped) {
            (Some(id), Some(children)) => Scene {
                toplevels: self.toplevels.update(
                    toplevel as int,
                    ToplevelView {
                        mapped: Some(children.insert(id, Child { surface, info })),
                        ..t
                    },
                ),
                actions: self.actions.push(
                    Action::Shell { toplevel, call: ShellCall::CreateChild { info } },
                ),
                ..self
            },
            _ => self,
        }
    }

    /// The scene once the panel item of a surface moved it, where it has one and the surface
    /// is a child.
    pub open spec fn with_moved_child(self, surface: int, geometry: Geometry) -> Scene {
        match (self.panel_item(surface), child_id(self.surfaces[surface].surface_id)) {
            (Some(toplevel), Some(id)) => {
                let t = self.toplevels[toplevel as int];
                Scene {
                    toplevels: self.toplevels.update(
                        toplevel as int,
                        ToplevelView { mapped: Some(moved_child(t.mapped->0, id, geometry)), ..t },
                    ),
                    actions: self.actions.push(
                        Action::Shell { toplevel, call: ShellCall::MoveChild { id, geometry } },
                    ),
                    ..self
                }
            },
            _ => self,
        }
    }

    /// The scene once the panel item of a surface put it on another level, where it has one
    /// and the surface was added to it.
    pub open spec fn with_child_level(self, surface: int, z_order: i32) -> Scene {
        match (self.panel_item(surface), child_id(self.surfaces[surface].surface_id)) {
            (Some(toplevel), Some(id)) => {
                let t = self.toplevels[toplevel as int];
                let children = t.mapped->0;
                let child = children[id];
                if children.contains_key(id) {
                    Scene {
                        toplevels: self.toplevels.update(
                            toplevel as int,
                            ToplevelView {
                                mapped: Some(
                                    children.insert(
                                        id,
                                        Child {
                                            info: ChildState { z_order, ..child.info },
                                            ..child
                                        },
                                    ),
                                ),
                                ..t
                            },
                        ),
                        actions: self.actions.push(
                            Action::Shell {
                                toplevel,
                                call: ShellCall::MoveChild { id, geometry: child.info.geometry },
                            },
                        ),
                        ..self
                    }
                } else {
                    self
                }
            },
            _ => self,
        }
    }

    /// The scene once the panel item of a surface dropped it, where it has one and the
    /// surface is a child.
    pub open spec fn without_child(self, surface: int) -> Scene {
        match (self.panel_item(surface), child_id(self.surfaces[surface].surface_id)) {
            (Some(toplevel), Some(id)) => {
                let t = self.toplevels[toplevel as int];
                Scene {
                    toplevels: self.toplevels.update(
                        toplevel as int,
                        ToplevelView { mapped: Some(t.mapped->0.remove(id)), ..t },
                    ),
                    actions: self.actions.push(
                        Action::Shell { toplevel, call: ShellCall::DestroyChild { id } },
                    ),
                    ..self
                }
            },
            _ => self,
        }
    }

    /// The place of the surface that a part of a toplevel's panel item shows: that of the
    /// toplevel, or that of a child as long as anything refers to it.
    pub open spec fn item_surface(self, toplevel: usize, id: SurfaceId) -> Option<usize> {
        let t = self.toplevels[toplevel as int];
        match id {
            SurfaceId::Toplevel => Some(t.wl_surface),
            SurfaceId::Child { id } => match t.mapped {
                Some(children) if children.contains_key(id)
                    && self.surfaces[children[id].surface as int].alive => Some(
                    children[id].surface,
                ),
                _ => None,
            },
        }
    }

    /// The scene once a toplevel is shown by a panel item that has these children.
    pub open spec fn with_panel_item(self, toplevel: usize, children: Map<u64, Child>) -> Scene {
        Scene {
            toplevels: self.toplevels.update(
                toplevel as int,
                ToplevelView { mapped: Some(children), ..self.toplevels[toplevel as int] },
            ),
            ..self
        }
    }

    /// What one commit handler does, and the handler that stays, if one does.
    pub open spec fn handled(self, surface: usize, handler: CommitHandler) -> (
        Scene,
        Option<CommitHandler>,
    ) {
        let current = self.surfaces[surface as int].state.current;
        match handler {
            CommitHandler::Toplevel { toplevel, first_commit } => {
                let t = self.toplevels[toplevel as int];
                let next = Some(CommitHandler::Toplevel { toplevel, first_commit: false });
                let scene = if first_commit {
                    self.with_action(Action::Reconfigure { toplevel })
                } else {
                    self
                };
                if !t.alive {
                    (self, Some(handler))
                } else if t.mapped is None {
                    if self.xdg_surfaces[t.xdg_surface as int].configured
                        && current.has_valid_buffer() {
                        (scene.with_action(Action::MapToplevel { toplevel }), None)
                    } else {
                        (scene, next)
                    }
                } else {
                    match current.buffer {
                        Some(buffer) if t.last_committed_res != Some(buffer.size) => (
                            scene.with_action(
                                Action::Shell {
                                    toplevel,
                                    call: ShellCall::ToplevelResized { size: pixels(buffer.size) },
                                },
                            ),
                            next,
                        ),
                        _ => (scene, next),
                    }
                }
            },
            CommitHandler::Popup { popup, info } => {
                let p = self.popups[popup as int];
                match self.panel_item(surface as int) {
                    Some(toplevel) if p.alive && self.xdg_surfaces[p.surface as int].configured
                        && current.has_valid_buffer() => (
                        self.with_child(toplevel, surface, info),
                        None,
                    ),
                    _ => (self, Some(handler)),
                }
            },
        }
    }

    /// What a list of commit handlers does one after the other, and those that stay.
    pub open spec fn all_handled(self, surface: usize, handlers: Seq<CommitHandler>) -> (
        Scene,
        Seq<CommitHandler>,
    )
        decreases handlers.len(),
    {
        if handlers.len() == 0 {
            (self, Seq::empty())
        } else {
            let (scene, kept) = self.all_handled(surface, handlers.drop_last());
            let (scene, last) = scene.handled(surface, handlers.last());
            (
                scene,
                match last {
                    Some(handler) => kept.push(handler),
                    None => kept,
                },
            )
        }
    }

    /// Refreshing a surface twice is refreshing it once.
    pub(crate) proof fn lemma_refresh_order(self, a: Seq<int>, b: Seq<int>)
        ensures
            self.refreshed(a).refreshed(b) == self.refreshed(a + b),
    {
        let twice = self.refreshed(a).refreshed(b);
        let once = self.refreshed(a + b);
        assert forall|i: int| 0 <= i < self.surfaces.len() implies twice.surfaces[i]
            == once.surfaces[i] by {
            if a.contains(i) {
                let k = choose|k: int| 0 <= k < a.len() && a[k] == i;
                assert((a + b)[k] == i);
            }
            if b.contains(i) {
                let k = choose|k: int| 0 <= k < b.len() && b[k] == i;
                assert((a + b)[a.len() + k] == i);
            }
            if (a + b).contains(i) {
                let k = choose|k: int| 0 <= k < (a + b).len() && (a + b)[k] == i;
                if k < a.len() {
                    assert(a[k] == i);
                } else {
                    assert(b[k - a.len()] == i);
                }
            }
        }
        assert(twice.surfaces =~= once.surfaces);
    }

    /// What is shown for a list in two parts is what is shown for one part after the other.
    pub(crate) proof fn lemma_order_actions(self, a: Seq<int>, b: Seq<int>)
        ensures
            self.order_actions(a + b) == self.order_actions(a) + self.refreshed(a).order_actions(b),
        decreases b.len(),
    {
        if b.len() == 0 {
            assert(a + b =~= a);
            assert(self.order_actions(a) + Seq::<Action>::empty() =~= self.order_actions(a));
        } else {
            assert((a + b).drop_last() =~= a + b.drop_last());
            self.lemma_order_actions(a, b.drop_last());
            self.lemma_refresh_order(a, b);
            assert(self.order_actions(a + b) =~= self.order_actions(a) + self.refreshed(
                a,
            ).order_actions(b));
        }
    }

    pub(crate) proof fn lemma_shown(self, a: Seq<int>, b: Seq<int>)
        ensures
            self.shown(a).shown(b) == self.shown(a + b),
    {
        self.lemma_refresh_order(a, b);
        self.lemma_order_actions(a, b);
        let scene = self.shown(a);
        lemma_actions_aside(scene, self.refreshed(a), b);
        assert(scene.refreshed(b).surfaces =~= self.refreshed(a).refreshed(b).surfaces);
        assert(self.shown(a).shown(b).actions =~= self.shown(a + b).actions);
    }
}

/// More toplevels and popups, each with its places there, leave all places there.
pub(crate) proof fn lemma_grown(before: Scene, after: Scene)
    requires
        before.links(),
        after.surfaces == before.surfaces,
        after.xdg_surfaces == before.xdg_surfaces,
        before.toplevels.is_prefix_of(after.toplevels),
        before.popups.is_prefix_of(after.popups),
        forall|i: int|
            before.toplevels.len() <= i < after.toplevels.len() ==> {
                &&& (#[trigger] after.toplevels[i]).wl_surface < after.surfaces.len()
                &&& after.toplevels[i].xdg_surface < after.xdg_surfaces.len()
                &&& after.toplevels[i].mapped is None
            },
        forall|i: int|
            before.popups.len() <= i < after.popups.len() ==> (
            #[trigger] after.popups[i]).surface < after.xdg_surfaces.len(),
    ensures
        after.links(),
{
    assert forall|i: int| 0 <= i < after.surfaces.len() implies {
        &&& (#[trigger] after.surfaces[i]).toplevel matches Some(t) ==> t < after.toplevels.len()
        &&& forall|j: int|
            0 <= j < after.surfaces[i].on_commit_handlers.len() ==> #[trigger] handler_links(
                after.surfaces[i].on_commit_handlers[j],
                after.toplevels.len(),
                after.popups.len(),
            )
    } by {
        let s = before.surfaces[i];
        assert forall|j: int| 0 <= j < s.on_commit_handlers.len() implies #[trigger] handler_links(
            s.on_commit_handlers[j],
            after.toplevels.len(),
            after.popups.len(),
        ) by {
            assert(handler_links(
                s.on_commit_handlers[j],
                before.toplevels.len(),
                before.popups.len(),
            ));
        }
    }
    assert forall|i: int| 0 <= i < after.toplevels.len() implies {
        &&& (#[trigger] after.toplevels[i]).wl_surface < after.surfaces.len()
        &&& after.toplevels[i].xdg_surface < after.xdg_surfaces.len()
        &&& children_link(after.toplevels[i].mapped, after.surfaces.len())
    } by {
        if i < before.toplevels.len() {
            assert(after.toplevels[i] == before.toplevels[i]);
        }
    }
    assert forall|i: int| 0 <= i < after.popups.len() implies (#[trigger] after.popups[i]).surface
        < after.xdg_surfaces.len() by {
        if i < before.popups.len() {
            assert(after.popups[i] == before.popups[i]);
        }
    }
}

/// A surface that keeps its place among the others and names places that are there can
/// stand for the one that was.
pub(crate) proof fn lemma_relinked(scene: Scene, surface: int, view: SurfaceView)
    requires
        is_linked(scene.surfaces),
        scene.links(),
        0 <= surface < scene.surfaces.len(),
        view.children == scene.surfaces[surface].children,
        view.parent == scene.surfaces[surface].parent,
        view.toplevel matches Some(t) ==> t < scene.toplevels.len(),
        forall|j: int|
            0 <= j < view.on_commit_handlers.len() ==> #[trigger] handler_links(
                view.on_commit_handlers[j],
                scene.toplevels.len(),
                scene.popups.len(),
            ),
    ensures
        is_linked(scene.with_surface(surface, view).surfaces),
        scene.with_surface(surface, view).links(),
{
    let after = scene.with_surface(surface, view);
    lemma_same_shape(scene.surfaces, after.surfaces);
    assert forall|i: int| 0 <= i < after.surfaces.len() implies {
        &&& (#[trigger] after.surfaces[i]).toplevel matches Some(t) ==> t < after.toplevels.len()
        &&& forall|j: int|
            0 <= j < after.surfaces[i].on_commit_handlers.len() ==> #[trigger] handler_links(
                after.surfaces[i].on_commit_handlers[j],
                after.toplevels.len(),
                after.popups.len(),
            )
    } by {
        if i != surface {
            assert(after.surfaces[i] == scene.surfaces[i]);
        }
    }
}

pub(crate) proof fn lemma_same_order(
    a: Seq<SurfaceView>,
    b: Seq<SurfaceView>,
    surface: int,
    depth: nat,
)
    requires
        is_linked(a),
        same_tree(a, b),
        0 <= surface < a.len(),
    ensures
        sync_order(a, surface, depth) == sync_order(b, surface, depth),
    decreases depth, a[surface].children.len() + 1,
{
    assert(a[surface].children == b[surface].children);
    lemma_same_child_order(a, b, surface, a[surface].children.len(), depth);
}

pub(crate) proof fn lemma_same_child_order(
    a: Seq<SurfaceView>,
    b: Seq<SurfaceView>,
    surface: int,
    n: nat,
    depth: nat,
)
    requires
        is_linked(a),
        same_tree(a, b),
        0 <= surface < a.len(),
        n <= a[surface].children.len(),
    ensures
        child_order(a, surface, n, depth) == child_order(b, surface, n, depth),
    decreases depth, n,
{
    if n > 0 {
        let child = a[surface].children[n - 1] as int;
        assert(b[surface].children[n - 1] == a[surface].children[n - 1]);
        assert(a[child].alive == b[child].alive);
        lemma_same_child_order(a, b, surface, (n - 1) as nat, depth);
        if depth > 0 {
            lemma_same_order(a, b, child, (depth - 1) as nat);
        }
    }
}

pub(crate) proof fn lemma_same_ends(
    a: Seq<SurfaceView>,
    b: Seq<SurfaceView>,
    surface: int,
    depth: nat,
)
    requires
        is_linked(a),
        same_tree(a, b),
        0 <= surface < a.len(),
        ends(a, surface, depth),
    ensures
        ends(b, surface, depth),
    decreases depth,
{
    assert(a[surface].children == b[surface].children);
    assert forall|j: int|
        #![trigger b[surface].children[j]]
        0 <= j < b[surface].children.len() && waits(b, b[surface].children[j] as int) implies depth
        > 0 && ends(b, b[surface].children[j] as int, (depth - 1) as nat) by {
        let child = a[surface].children[j] as int;
        assert(a[child].alive == b[child].alive);
        lemma_same_ends(a, b, child, (depth - 1) as nat);
    }
}

/// A chain from a surface that does not wait for itself never comes to the same surface twice.
proof fn lemma_chain_once(surfaces: Seq<SurfaceView>, path: Seq<int>, i: int, j: int)
    requires
        surfaces.len() <= usize::MAX,
        is_chain(surfaces, path),
        !waits_for_itself(surfaces, path[0]),
        0 <= i < j < path.len(),
    ensures
        path[i] != path[j],
    decreases i,
{
    if path[i] == path[j] {
        if i == 0 {
            let cycle = path.take(j + 1);
            assert(is_chain(surfaces, cycle));
            assert(cycle.last() == path[0]);
        } else {
            assert(surfaces[path[i]].parent == Some(path[i - 1] as usize));
            assert(surfaces[path[j]].parent == Some(path[j - 1] as usize));
            assert(0 <= path[i - 1] < surfaces.len() && 0 <= path[j - 1] < surfaces.len());
            lemma_chain_once(surfaces, path, i - 1, j - 1);
        }
    }
}

/// Different surfaces are no more than there are.
proof fn lemma_no_more_than_all(path: Seq<int>, n: nat)
    requires
        path.no_duplicates(),
        forall|i: int| 0 <= i < path.len() ==> 0 <= #[trigger] path[i] < n,
    ensures
        path.len() <= n,
{
    let all = vstd::set_lib::set_int_range(0, n as int);
    vstd::set_lib::lemma_int_range(0, n as int);
    path.unique_seq_to_set();
    assert(path.to_set().subset_of(all));
    vstd::set_lib::lemma_len_subset(path.to_set(), all);
}

proof fn lemma_chain_ends(surfaces: Seq<SurfaceView>, path: Seq<int>)
    requires
        is_linked(surfaces),
        is_chain(surfaces, path),
        !waits_for_itself(surfaces, path[0]),
    ensures
        path.len() <= surfaces.len(),
        ends(surfaces, path.last(), (surfaces.len() + 1 - path.len()) as nat),
    decreases surfaces.len() + 1 - path.len(),
{
    assert forall|i: int, j: int| 0 <= i < path.len() && 0 <= j < path.len() && i != j implies path[
        i
    ] != path[j] by {
        if i < j {
            lemma_chain_once(surfaces, path, i, j);
        } else {
            lemma_chain_once(surfaces, path, j, i);
        }
    }
    lemma_no_more_than_all(path, surfaces.len());
    let surface = path.last();
    let depth = (surfaces.len() + 1 - path.len()) as nat;
    let children = surfaces[surface].children;
    assert forall|j: int|
        #![trigger surfaces[surface].children[j]]
        0 <= j < children.len() && waits(surfaces, children[j] as int) implies depth > 0 && ends(
        surfaces,
        children[j] as int,
        (depth - 1) as nat,
    ) by {
        let child = children[j] as int;
        let longer = path.push(child);
        assert(surfaces[child].parent == Some(surface as usize));
        assert forall|i: int| 0 < i < longer.len() implies {
            &&& surfaces[#[trigger] longer[i]].parent == Some(longer[i - 1] as usize)
            &&& waits(surfaces, longer[i])
        } by {
            if i < path.len() {
                assert(longer[i] == path[i] && longer[i - 1] == path[i - 1]);
            }
        }
        assert(is_chain(surfaces, longer));
        assert(longer[0] == path[0]);
        lemma_chain_ends(surfaces, longer);
        assert(longer.last() == child);
    }
}

/// The update of a surface that does not wait for itself has an end.
pub(crate) proof fn lemma_update_ends(surfaces: Seq<SurfaceView>, surface: int)
    requires
        is_linked(surfaces),
        0 <= surface < surfaces.len(),
        !waits_for_itself(surfaces, surface),
    ensures
        ends(surfaces, surface, surfaces.len()),
{
    let path = seq![surface];
    assert(is_chain(surfaces, path));
    lemma_chain_ends(surfaces, path);
}

/// A surface that does not wait at all does not wait for itself.
pub(crate) proof fn lemma_does_not_wait(surfaces: Seq<SurfaceView>, surface: int)
    requires
        !waits(surfaces, surface),
    ensures
        !waits_for_itself(surfaces, surface),
{
    assert forall|path: Seq<int>|
        #[trigger] is_chain(surfaces, path) && path.len() > 1 && path[0]
            == surface implies path.last() != surface by {
        assert(waits(surfaces, path[path.len() - 1]));
    }
}

/// What is shown does not depend on what was to be done before.
pub(crate) proof fn lemma_actions_aside(a: Scene, b: Scene, order: Seq<int>)
    requires
        a.surfaces == b.surfaces,
        a.toplevels == b.toplevels,
    ensures
        a.order_actions(order) == b.order_actions(order),
    decreases order.len(),
{
    if order.len() > 0 {
        lemma_actions_aside(a, b, order.drop_last());
        assert(a.refreshed(order).surfaces =~= b.refreshed(order).surfaces);
        assert(a.refreshed(order).updated_actions(order.last()) =~= b.refreshed(
            order,
        ).updated_actions(order.last()));
    }
}

pub(crate) proof fn lemma_shown_tree(scene: Scene, order: Seq<int>)
    ensures
        same_tree(scene.surfaces, scene.shown(order).surfaces),
        same_tree(scene.surfaces, scene.refreshed(order).surfaces),
{
}

/// Whether surfaces are linked depends on their parents and children alone.
pub(crate) proof fn lemma_same_shape(a: Seq<SurfaceView>, b: Seq<SurfaceView>)
    requires
        is_linked(a),
        a.len() == b.len(),
        forall|i: int| 0 <= i < a.len() ==> (#[trigger] a[i]).children == b[i].children,
        forall|i: int| 0 <= i < a.len() ==> (#[trigger] a[i]).parent == b[i].parent,
    ensures
        is_linked(b),
{
    assert forall|p: int, j: int|
        0 <= p < b.len() && 0 <= j < b[p].children.len() implies {
        let c = #[trigger] b[p].children[j] as int;
        &&& 0 <= c < b.len()
        &&& b[c].parent == Some(p as usize)
    } by {
        assert(a[p].children == b[p].children);
        let c = a[p].children[j] as int;
        assert(a[c].parent == b[c].parent);
    }
    assert forall|p: int| 0 <= p < b.len() implies (#[trigger] b[p]).children.no_duplicates() by {
        assert(a[p].children == b[p].children);
    }
    assert forall|c: int| 0 <= c < b.len() && (#[trigger] b[c]).parent is Some implies {
        let p = b[c].parent->0 as int;
        &&& 0 <= p < b.len()
        &&& b[p].children.contains(c as usize)
    } by {
        assert(a[c].parent == b[c].parent);
        let p = a[c].parent->0 as int;
        assert(a[p].children == b[p].children);
    }
}

pub(crate) proof fn lemma_refreshed_wf(scene: Scene, order: Seq<int>)
    requires
        is_linked(scene.surfaces),
        scene.links(),
    ensures
        is_linked(scene.refreshed(order).surfaces),
        scene.refreshed(order).links(),
{
    lemma_shown_tree(scene, order);
    lemma_same_shape(scene.surfaces, scene.refreshed(order).surfaces);
    let after = scene.refreshed(order);
    assert forall|i: int| 0 <= i < after.surfaces.len() implies {
        &&& (#[trigger] after.surfaces[i]).toplevel matches Some(t) ==> t < after.toplevels.len()
        &&& forall|j: int|
            0 <= j < after.surfaces[i].on_commit_handlers.len() ==> #[trigger] handler_links(
                after.surfaces[i].on_commit_handlers[j],
                after.toplevels.len(),
                after.popups.len(),
            )
    } by {
        assert(scene.surfaces[i].toplevel == after.surfaces[i].toplevel);
        assert(scene.surfaces[i].on_commit_handlers == after.surfaces[i].on_commit_handlers);
    }
}

pub(crate) proof fn lemma_asked_wf(scene: Scene, answers: Seq<bool>)
    requires
        is_linked(scene.surfaces),
        scene.links(),
    ensures
        is_linked(scene.asked(answers).surfaces),
        scene.asked(answers).links(),
{
    let after = scene.asked(answers);
    lemma_same_shape(scene.surfaces, after.surfaces);
    assert forall|i: int| 0 <= i < after.surfaces.len() implies {
        &&& (#[trigger] after.surfaces[i]).toplevel matches Some(t) ==> t < after.toplevels.len()
        &&& forall|j: int|
            0 <= j < after.surfaces[i].on_commit_handlers.len() ==> #[trigger] handler_links(
                after.surfaces[i].on_commit_handlers[j],
                after.toplevels.len(),
                after.popups.len(),
            )
    } by {
        assert(scene.surfaces[i].toplevel == after.surfaces[i].toplevel);
        assert(scene.surfaces[i].on_commit_handlers == after.surfaces[i].on_commit_handlers);
    }
}

pub(crate) proof fn lemma_shown_wf(scene: Scene, order: Seq<int>)
    requires
        is_linked(scene.surfaces),
        scene.links(),
    ensures
        is_linked(scene.shown(order).surfaces),
        scene.shown(order).links(),
{
    lemma_refreshed_wf(scene, order);
}

pub(crate) proof fn lemma_handled_wf(scene: Scene, surface: usize, handler: CommitHandler)
    requires
        scene.links(),
        surface < scene.surfaces.len(),
        handler_links(handler, scene.toplevels.len(), scene.popups.len()),
    ensures
        ({
            let (after, kept) = scene.handled(surface, handler);
            &&& after.links()
            &&& after.surfaces == scene.surfaces
            &&& after.xdg_surfaces == scene.xdg_surfaces
            &&& after.popups == scene.popups
            &&& after.toplevels.len() == scene.toplevels.len()
            &&& kept matches Some(h) ==> handler_links(
                h,
                scene.toplevels.len(),
                scene.popups.len(),
            )
        }),
{
}

pub(crate) proof fn lemma_with_parent_linked(scene: Scene, surface: usize, parent: usize)
    requires
        is_linked(scene.surfaces),
        surface < scene.surfaces.len(),
        parent < scene.surfaces.len(),
        surface != parent,
        scene.surfaces[surface as int].parent is None,
    ensures
        is_linked(scene.with_parent(surface, parent).surfaces),
{
    let a = scene.surfaces;
    let b = scene.with_parent(surface, parent).surfaces;
    // A surface without a parent is nobody's child.
    assert forall|p: int| 0 <= p < a.len() implies !(#[trigger] a[p]).children.contains(
        surface,
    ) by {
        if a[p].children.contains(surface) {
            let j = choose|j: int| 0 <= j < a[p].children.len() && a[p].children[j] == surface;
            assert(a[a[p].children[j] as int].parent == Some(p as usize));
        }
    }
    assert forall|p: int, j: int| 0 <= p < b.len() && 0 <= j < b[p].children.len() implies {
        let c = #[trigger] b[p].children[j] as int;
        &&& 0 <= c < b.len()
        &&& b[c].parent == Some(p as usize)
    } by {
        let c = b[p].children[j] as int;
        if p == parent && j == a[p].children.len() {
            assert(c == surface);
        } else {
            assert(b[p].children[j] == a[p].children[j]);
            assert(0 <= c < a.len() && a[c].parent == Some(p as usize));
            assert(a[p].children.contains(c as usize));
            assert(c != surface);
        }
    }
    assert forall|p: int| 0 <= p < b.len() implies (#[trigger] b[p]).children.no_duplicates() by {
        assert(a[p].children.no_duplicates());
        if p == parent {
            assert(!a[p].children.contains(surface));
        }
    }
    assert forall|c: int| 0 <= c < b.len() && (#[trigger] b[c]).parent is Some implies {
        let p = b[c].parent->0 as int;
        &&& 0 <= p < b.len()
        &&& b[p].children.contains(c as usize)
    } by {
        if c == surface {
            let n = a[parent as int].children.len() as int;
            assert(b[parent as int].children[n] == surface);
        } else {
            assert(a[c].parent == b[c].parent);
            let p = a[c].parent->0 as int;
            let j = choose|j: int|
                0 <= j < a[p].children.len() && a[p].children[j] == c as usize;
            assert(a[p].children.contains(c as usize));
            assert(b[p].children[j] == c as usize);
        }
    }
}

} // verus!
