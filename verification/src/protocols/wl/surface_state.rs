//! The double-buffered state of a surface.
use crate::types::{Geometry, ObjectId, Vector2};
use vstd::prelude::*;

verus! {

/// A buffer as a surface sees it.
#[derive(Debug, Clone, Copy, PartialEq, Eq)]
pub struct AttachedBuffer {
    pub id: ObjectId,
    pub size: Vector2<usize>,
    pub transparent: bool,
}

/// What a client sets on a surface between two commits.
#[derive(Debug, PartialEq, Eq)]
pub struct SurfaceState {
    pub buffer: Option<AttachedBuffer>,
    /// How many buffer pixels make up a surface pixel.
    pub density: i32,
    pub geometry: Option<Geometry>,
    pub min_size: Option<Vector2<u32>>,
    pub max_size: Option<Vector2<u32>>,
    pub frame_callbacks: Vec<ObjectId>,
}

#[verifier::ext_equal]
pub ghost struct StateView {
    pub buffer: Option<AttachedBuffer>,
    pub density: i32,
    pub geometry: Option<Geometry>,
    pub min_size: Option<Vector2<u32>>,
    pub max_size: Option<Vector2<u32>>,
    pub frame_callbacks: Seq<ObjectId>,
}

impl View for SurfaceState {
    type V = StateView;

    open spec fn view(&self) -> StateView {
        StateView {
            buffer: self.buffer,
            density: self.density,
            geometry: self.geometry,
            min_size: self.min_size,
            max_size: self.max_size,
            frame_callbacks: self.frame_callbacks@,
        }
    }
}

impl StateView {
    /// The state of a surface on which nothing was set.
    pub open spec fn initial() -> StateView {
        StateView {
            buffer: None,
            density: 1,
            geometry: None,
            min_size: None,
            max_size: None,
            frame_callbacks: Seq::empty(),
        }
    }

    /// This state once `newer` is applied to it: the newer values, and the frame callbacks
    /// of both, the older ones first.
    pub open spec fn applied(self, newer: StateView) -> StateView {
        StateView { frame_callbacks: self.frame_callbacks + newer.frame_callbacks, ..newer }
    }

    /// What a client starts from after this state was committed.
    pub open spec fn initial_pending(self) -> StateView {
        StateView { frame_callbacks: Seq::empty(), ..self }
    }

    /// Whether there is a buffer with pixels in it.
    pub open spec fn has_valid_buffer(self) -> bool {
        self.buffer matches Some(b) && b.size.x > 0 && b.size.y > 0
    }
}

impl Default for SurfaceState {
    fn default() -> (state: Self)
        ensures
            state@ == StateView::initial(),
    {
        SurfaceState {
            buffer: None,
            density: 1,
            geometry: None,
            min_size: None,
            max_size: None,
            frame_callbacks: Vec::new(),
        }
    }
}

impl SurfaceState {
    /// Takes over a newer state; its frame callbacks move here, behind those already waiting.
    pub fn apply(&mut self, pending: &mut SurfaceState)
        ensures
            final(self)@ == old(self)@.applied(old(pending)@),
            final(pending)@ == old(pending)@.initial_pending(),
    {
        self.buffer = pending.buffer;
        self.density = pending.density;
        self.geometry = pending.geometry;
        self.min_size = pending.min_size;
        self.max_size = pending.max_size;
        self.frame_callbacks.append(&mut pending.frame_callbacks);
    }

    /// The state that a client edits after this one was committed.
    pub fn get_initial_pending(&self) -> (state: SurfaceState)
        ensures
            state@ == self@.initial_pending(),
    {
        SurfaceState {
            buffer: self.buffer,
            density: self.density,
            geometry: self.geometry,
            min_size: self.min_size,
            max_size: self.max_size,
            frame_callbacks: Vec::new(),
        }
    }

    pub fn has_valid_buffer(&self) -> (r: bool)
        ensures
            r == self@.has_valid_buffer(),
    {
        match self.buffer {
            Some(buffer) => buffer.size.x > 0 && buffer.size.y > 0,
            None => false,
        }
    }
}

/// A surface state that a commit either makes current at once or sets aside until the
/// parent surface commits.
pub struct SurfaceCommitAwareBuffer {
    pub current: SurfaceState,
    pub queued: Option<SurfaceState>,
    pub pending: SurfaceState,
}

#[verifier::ext_equal]
pub ghost struct CommitView {
    pub current: StateView,
    pub queued: Option<StateView>,
    pub pending: StateView,
}

impl View for SurfaceCommitAwareBuffer {
    type V = CommitView;

    open spec fn view(&self) -> CommitView {
        CommitView {
            current: self.current@,
            queued: match self.queued {
                Some(queued) => Some(queued@),
                None => None,
            },
            pending: self.pending@,
        }
    }
}

impl CommitView {
    /// What is set aside, once it has become current.
    pub open spec fn updated(self) -> CommitView {
        match self.queued {
            Some(queued) => CommitView {
                current: self.current.applied(queued),
                queued: None,
                pending: self.pending,
            },
            None => self,
        }
    }

    /// The state after a commit. With `wait`, the pending state joins what is set aside;
    /// without, all of it becomes current.
    pub open spec fn committed(self, wait: bool) -> CommitView {
        if wait {
            CommitView {
                current: self.current,
                queued: Some(
                    match self.queued {
                        Some(queued) => queued.applied(self.pending),
                        None => self.pending,
                    },
                ),
                pending: self.pending.initial_pending(),
            }
        } else {
            CommitView {
                current: self.updated().current.applied(self.pending),
                queued: None,
                pending: self.pending.initial_pending(),
            }
        }
    }

    /// The frame callbacks that are not answered yet, oldest first.
    pub open spec fn callbacks(self) -> Seq<ObjectId> {
        self.current.frame_callbacks + match self.queued {
            Some(queued) => queued.frame_callbacks,
            None => Seq::empty(),
        } + self.pending.frame_callbacks
    }
}

impl SurfaceCommitAwareBuffer {
    pub fn new(state: SurfaceState) -> (buffer: Self)
        ensures
            buffer@ == (CommitView {
                current: state@,
                queued: None,
                pending: state@.initial_pending(),
            }),
    {
        let pending = state.get_initial_pending();
        SurfaceCommitAwareBuffer { current: state, queued: None, pending }
    }

    /// Commits the pending state; with `wait`, it becomes current only with
    /// [`update_current`](Self::update_current).
    pub fn apply(&mut self, wait: bool)
        ensures
            final(self)@ == old(self)@.committed(wait),
    {
        if wait {
            let mut queued = match self.queued.take() {
                Some(queued) => queued,
                None => self.pending.get_initial_pending(),
            };
            queued.apply(&mut self.pending);
            self.queued = Some(queued);
            assert(self@ =~= old(self)@.committed(wait));
        } else {
            self.update_current();
            self.current.apply(&mut self.pending);
        }
    }

    /// Makes current what commits have set aside.
    pub fn update_current(&mut self)
        ensures
            final(self)@ == old(self)@.updated(),
    {
        if let Some(mut queued) = self.queued.take() {
            self.current.apply(&mut queued);
        }
    }
}

/// Committing loses no frame callback, answers none twice and keeps their order, whether or
/// not the surface waits for its parent, and so does making the state current.
pub proof fn commits_keep_callbacks(state: CommitView, wait: bool)
    ensures
        state.committed(wait).callbacks() == state.callbacks(),
        state.updated().callbacks() == state.callbacks(),
{
    assert(state.committed(wait).callbacks() =~= state.callbacks());
    assert(state.updated().callbacks() =~= state.callbacks());
}

/// A surface that waits shows nothing new by its own commit: what it shows changes with
/// [`CommitView::updated`], and then to what an immediate commit would have shown.
pub proof fn waiting_defers_commit(state: CommitView)
    ensures
        state.committed(true).current == state.current,
        state.committed(true).updated() == state.committed(false),
{
    let waited = state.committed(true).updated();
    assert(waited.current.frame_callbacks =~= state.committed(false).current.frame_callbacks);
}

} // verus!
