//! The shell that this service itself has for a panel item: a panel that can be moved about
//! and put into an acceptor.
use crate::collections::Child;
use crate::frame_dispatcher::{frame_step, FrameEvent, FrameStep};
use crate::message::{Message, SeatMessage};
use crate::protocols::xdg::backend::XdgBackend;
use crate::types::{SurfaceUpdateTarget, Vector2};
use vstd::prelude::*;

verus! {

/// An object that came into range: what it can do, and how it is reached.
pub struct QueriedInterface<A> {
    pub interface_id: String,
    pub interface: A,
}

/// The watch for acceptors in range of a panel. `A` is how an acceptor is reached, `S` what
/// was measured of its field.
pub struct ItemHandlerQuery<A, S> {
    /// Whether the panel has become part of an acceptor.
    pub replaced: bool,
    /// The acceptor that is in range.
    pub acceptor: Option<(A, S)>,
    /// Whether the first acceptor that comes into range gets the panel at once.
    pub auto_insert: bool,
}

/// The place of the first of some interfaces that has an id.
pub open spec fn first_with_id<A>(interfaces: Seq<QueriedInterface<A>>, id: Seq<char>) -> Option<
    int,
>
    decreases interfaces.len(),
{
    if interfaces.len() == 0 {
        None
    } else {
        match first_with_id(interfaces.drop_last(), id) {
            Some(i) => Some(i),
            None => if interfaces.last().interface_id@ == id {
                Some(interfaces.len() - 1)
            } else {
                None
            },
        }
    }
}

impl<A, S> ItemHandlerQuery<A, S> {
    pub fn new(auto_insert: bool) -> (query: Self)
        ensures
            query == (ItemHandlerQuery::<A, S> { replaced: false, acceptor: None, auto_insert }),
    {
        ItemHandlerQuery { replaced: false, acceptor: None, auto_insert }
    }

    /// The acceptor that the panel is to become part of: the one in range, as long as the
    /// window and the seat are there. To be asked for only once the panel was let go of, so
    /// that it can be moved through the field of an acceptor.
    pub fn try_capture(&self, toplevel_alive: bool, seat_alive: bool) -> (acceptor: Option<&A>)
        ensures
            acceptor == match self.acceptor {
                Some((acceptor, _)) if toplevel_alive && seat_alive => Some(&acceptor),
                _ => None,
            },
    {
        match &self.acceptor {
            Some((acceptor, _)) => {
                if toplevel_alive && seat_alive {
                    Some(acceptor)
                } else {
                    None
                }
            },
            None => None,
        }
    }

    /// Notes that the panel has become part of an acceptor.
    pub fn captured(&mut self)
        ensures
            *final(self) == (ItemHandlerQuery { replaced: true, ..*old(self) }),
    {
        self.replaced = true;
    }

    /// Something came into range. Returns whether the panel is to be put into the acceptor in
    /// range at once, which happens at the first opportunity and then no more.
    pub fn entered(
        &mut self,
        mut interfaces: Vec<QueriedInterface<A>>,
        acceptor_id: &String,
        sample: S,
    ) -> (capture: bool)
        ensures
            capture == old(self).auto_insert,
            *final(self) == (ItemHandlerQuery {
                auto_insert: false,
                acceptor: match first_with_id(interfaces@, acceptor_id@) {
                    Some(i) => Some((interfaces@[i].interface, sample)),
                    None => old(self).acceptor,
                },
                ..*old(self)
            }),
    {
        let ghost all = interfaces@;
        let mut i: usize = 0;
        assert(all.take(0) =~= Seq::empty());
        while i < interfaces.len() && interfaces[i].interface_id != *acceptor_id
            invariant
                i <= interfaces.len(),
                interfaces@ == all,
                first_with_id(all.take(i as int), acceptor_id@) is None,
            decreases interfaces.len() - i,
        {
            i += 1;
            assert(all.take(i as int).drop_last() =~= all.take(i - 1));
        }
        if i < interfaces.len() {
            proof {
                assert(all.take(i + 1).drop_last() =~= all.take(i as int));
                lemma_first_stays(all, acceptor_id@, i + 1);
            }
            let found: QueriedInterface<A> = interfaces.swap_remove(i);
            self.acceptor = Some((found.interface, sample));
        } else {
            assert(all.take(i as int) =~= all);
        }
        let capture: bool = self.auto_insert;
        self.auto_insert = false;
        capture
    }

    /// What is in range was measured again.
    pub fn moved(&mut self, sample: S)
        ensures
            *final(self) == (ItemHandlerQuery {
                acceptor: match old(self).acceptor {
                    Some((acceptor, _)) => Some((acceptor, sample)),
                    None => None,
                },
                ..*old(self)
            }),
    {
        if let Some(entry) = &mut self.acceptor {
            entry.1 = sample;
        }
    }

    /// What was in range has left.
    pub fn left(&mut self)
        ensures
            *final(self) == (ItemHandlerQuery { acceptor: None, ..*old(self) }),
    {
        self.acceptor = None;
    }
}

proof fn lemma_first_stays<A>(interfaces: Seq<QueriedInterface<A>>, id: Seq<char>, n: int)
    requires
        0 <= n <= interfaces.len(),
        first_with_id(interfaces.take(n), id) is Some,
    ensures
        first_with_id(interfaces, id) == first_with_id(interfaces.take(n), id),
    decreases interfaces.len(),
{
    if n == interfaces.len() {
        assert(interfaces.take(n) =~= interfaces);
    } else {
        assert(interfaces.drop_last().take(n) =~= interfaces.take(n));
        lemma_first_stays(interfaces.drop_last(), id, n);
    }
}

/// The shell of a panel item.
pub struct PanelItemUi<A, S> {
    pub query: ItemHandlerQuery<A, S>,
    /// Whether an arrow points at the acceptor in range.
    pub showing_indicator: bool,
}

/// How the arrow that points at an acceptor changes.
#[derive(Debug, PartialEq, Eq)]
pub enum Indicator<S> {
    Point(S),
    Clear,
    Keep,
}

/// A parameter of the panel's material.
#[derive(Debug, Clone, Copy, PartialEq, Eq)]
pub enum MaterialParameter {
    Bool { name: &'static str, value: bool },
    /// The image that is submitted together with the points.
    Dmatex { name: &'static str, acquire_point: u64, release_point: u64 },
}

impl<A, S> PanelItemUi<A, S> {
    /// A shell that is shown by no acceptor and points at none.
    pub open spec fn initial(auto_insert: bool) -> Self {
        PanelItemUi {
            query: ItemHandlerQuery { replaced: false, acceptor: None, auto_insert },
            showing_indicator: false,
        }
    }
}

/// The size of a window that has shown nothing yet.
pub open spec fn initial_size(buffer_size: Option<Vector2<usize>>) -> Vector2<usize> {
    match buffer_size {
        Some(size) => size,
        None => Vector2 { x: 1, y: 1 },
    }
}

impl<A, S> PanelItemUi<A, S> {
    /// A shell for a toplevel whose current buffer has a size, that size, the panel item and
    /// the message that makes the seat forget what was pressed before.
    pub fn create(buffer_size: Option<Vector2<usize>>, auto_insert: bool) -> (r: (
        Self,
        Vector2<usize>,
        XdgBackend,
        Message,
    ))
        ensures
            r.0 == Self::initial(auto_insert),
            r.1 == initial_size(buffer_size),
            r.2@ == Map::<u64, Child>::empty(),
            r.3 == Message::Seat(SeatMessage::Reset),
    {
        let size: Vector2<usize> = match buffer_size {
            Some(size) => size,
            None => Vector2 { x: 1, y: 1 },
        };
        let (backend, message): (XdgBackend, Message) = XdgBackend::new();
        let query: ItemHandlerQuery<A, S> = ItemHandlerQuery::new(auto_insert);
        (PanelItemUi { query, showing_indicator: false }, size, backend, message)
    }

    /// What the input task does with what it waited for: it ends with the frame events, with
    /// the shell, and when the panel has become part of an acceptor.
    pub fn input_step<F>(ui: Option<&Self>, event: FrameEvent<F>) -> (step: FrameStep<F>)
        ensures
            step == match event {
                FrameEvent::Closed => FrameStep::<F>::Stop,
                FrameEvent::Lagged(_) => FrameStep::<F>::Wait,
                FrameEvent::Frame(frame) => match ui {
                    Some(ui) if !ui.query.replaced => FrameStep::Handle(frame),
                    _ => FrameStep::<F>::Stop,
                },
            },
    {
        let needed: bool = match ui {
            Some(ui) => !ui.query.replaced,
            None => false,
        };
        frame_step(event, needed)
    }

    /// Takes note of whether the panel was grabbed or let go of. Once it was grabbed, it is
    /// not put into an acceptor at once any more. Returns whether it is to be put into the
    /// acceptor in range.
    pub fn update_input(&mut self, just_grabbed: bool, just_released: bool) -> (capture: bool)
        ensures
            capture == just_released,
            *final(self) == (PanelItemUi {
                query: ItemHandlerQuery {
                    auto_insert: old(self).query.auto_insert && !just_grabbed,
                    ..old(self).query
                },
                ..*old(self)
            }),
    {
        if just_grabbed {
            self.query.auto_insert = false;
        }
        just_released
    }

    /// Draws the arrow that points at the acceptor in range; it is taken away once, when none
    /// is in range any more.
    pub fn refresh_acceptor_indicator(&mut self) -> (indicator: Indicator<&S>)
        ensures
            *final(self) == (PanelItemUi {
                showing_indicator: old(self).query.acceptor is Some,
                ..*old(self)
            }),
            indicator == match old(self).query.acceptor {
                Some((_, sample)) => Indicator::Point(&sample),
                None => if old(self).showing_indicator {
                    Indicator::<&S>::Clear
                } else {
                    Indicator::<&S>::Keep
                },
            },
    {
        let shown: bool = self.showing_indicator;
        self.showing_indicator = self.query.acceptor.is_some();
        match &self.query.acceptor {
            Some((_, sample)) => Indicator::Point(sample),
            None => {
                if shown {
                    Indicator::Clear
                } else {
                    Indicator::Keep
                }
            },
        }
    }

    /// The parameters that show a new image on the panel; only that of the toplevel is shown.
    pub fn update_surface_dmatex(
        surface: SurfaceUpdateTarget,
        acquire_point: u64,
        release_point: u64,
        opaque: bool,
    ) -> (parameters: Vec<MaterialParameter>)
        ensures
            parameters@ == if surface is Toplevel {
                seq![
                    MaterialParameter::Bool { name: "opaque", value: opaque },
                    MaterialParameter::Bool { name: "unlit", value: true },
                    MaterialParameter::Dmatex { name: "diffuse", acquire_point, release_point },
                ]
            } else {
                Seq::empty()
            },
    {
        let mut parameters: Vec<MaterialParameter> = Vec::new();
        if let SurfaceUpdateTarget::Toplevel = surface {
            parameters.push(MaterialParameter::Bool { name: "opaque", value: opaque });
            parameters.push(MaterialParameter::Bool { name: "unlit", value: true });
            parameters.push(
                MaterialParameter::Dmatex { name: "diffuse", acquire_point, release_point },
            );
        }
        parameters
    }
}

} // verus!
