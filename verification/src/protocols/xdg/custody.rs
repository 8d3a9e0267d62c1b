//! What becomes of a toplevel whose panel item an acceptor has taken.
use crate::compositor::Compositor;
use crate::message::{Message, SeatMessage};
use crate::panel_item_ui::{initial_size, PanelItemUi};
use crate::protocols::xdg::backend::XdgBackend;
use crate::scene::Scene;
use crate::types::Vector2;
use vstd::prelude::*;

verus! {

/// Who looks after a panel item that was handed to an acceptor. `P` is how the place is
/// reached that the acceptor has given it.
#[derive(Debug, PartialEq, Eq)]
pub enum Custody<P> {
    Held { toplevel: usize, spatial: P },
    /// The acceptor has let go.
    Ended,
}

/// A shell of this service that is to be shown at a place.
pub struct OwnShell<P, A, S> {
    pub spatial: P,
    pub ui: PanelItemUi<A, S>,
    pub size: Vector2<usize>,
    /// Makes the seat forget what was pressed before.
    pub message: Message,
}

impl Scene {
    /// The size of the buffer that a toplevel shows.
    pub open spec fn shown_size(self, toplevel: usize) -> Option<Vector2<usize>> {
        let surface = self.toplevels[toplevel as int].wl_surface;
        match self.surfaces[surface as int].state.current.buffer {
            Some(buffer) => Some(buffer.size),
            None => None,
        }
    }
}

impl<P> Custody<P> {
    /// The toplevel that gets a shell of this service, and where, when the acceptor lets go:
    /// it does so while the panel item and the seat are there.
    pub open spec fn returning(self, item_alive: bool, seat_alive: bool) -> Option<(usize, P)> {
        match self {
            Custody::Held { toplevel, spatial } if item_alive && seat_alive => Some(
                (toplevel, spatial),
            ),
            _ => None,
        }
    }

    /// The acceptor has let go of the panel item. A shell of this service is made in its
    /// place, one that is not put into the next acceptor at once; the old panel item is gone.
    pub fn released<A, S>(
        &mut self,
        compositor: &mut Compositor,
        item_alive: bool,
        seat_alive: bool,
    ) -> (shell: Option<OwnShell<P, A, S>>)
        requires
            old(compositor).wf(),
            *old(self) matches Custody::Held { toplevel, .. } ==> toplevel < old(
                compositor,
            )@.toplevels.len(),
        ensures
            *final(self) == Custody::<P>::Ended,
            final(compositor).wf(),
            match old(self).returning(item_alive, seat_alive) {
                Some((toplevel, spatial)) => {
                    &&& shell == Some(
                        OwnShell::<P, A, S> {
                            spatial,
                            ui: PanelItemUi::initial(false),
                            size: initial_size(old(compositor)@.shown_size(toplevel)),
                            message: Message::Seat(SeatMessage::Reset),
                        },
                    )
                    &&& final(compositor)@ == old(compositor)@.with_panel_item(
                        toplevel,
                        Map::empty(),
                    )
                },
                None => {
                    &&& shell is None
                    &&& final(compositor)@ == old(compositor)@
                },
            },
    {
        let mut held: Custody<P> = Custody::Ended;
        std::mem::swap(self, &mut held);
        match held {
            Custody::Held { toplevel, spatial } => {
                if !item_alive || !seat_alive {
                    return None;
                }
                let ghost scene = compositor@;
                assert(scene.toplevels[toplevel as int] == compositor.toplevels@[toplevel as int]@);
                let surface: usize = compositor.toplevels[toplevel].wl_surface;
                assert(scene.surfaces[surface as int] == compositor.surfaces@[surface as int]@);
                let buffer_size: Option<Vector2<usize>> =
                    compositor.surfaces[surface].current_buffer_size();
                let (ui, size, backend, message): (
                    PanelItemUi<A, S>,
                    Vector2<usize>,
                    XdgBackend,
                    Message,
                ) = PanelItemUi::create(buffer_size, false);
                compositor.set_panel_item(toplevel, backend);
                Some(OwnShell { spatial, ui, size, message })
            },
            Custody::Ended => None,
        }
    }

    /// Who looks after the panel item once the acceptor has let go.
    pub open spec fn after(self, releases: Seq<(bool, bool)>) -> Custody<P> {
        if releases.len() == 0 {
            self
        } else {
            Custody::Ended
        }
    }

    /// How many shells are made, however often the acceptor is found to have let go. Each time
    /// it is known whether the panel item and whether the seat was there.
    pub open spec fn shells_made(self, releases: Seq<(bool, bool)>) -> nat
        decreases releases.len(),
    {
        if releases.len() == 0 {
            0
        } else {
            let (item_alive, seat_alive) = releases.last();
            let custody = self.after(releases.drop_last());
            self.shells_made(releases.drop_last()) + if custody.returning(
                item_alive,
                seat_alive,
            ) is Some {
                1nat
            } else {
                0nat
            }
        }
    }
}

/// A toplevel that an acceptor had gets one shell of this service, the first time that the
/// acceptor lets go and only if the panel item and the seat are there then. Before that, and
/// ever after, it gets none.
pub proof fn toplevels_return_once<P>(
    toplevel: usize,
    spatial: P,
    releases: Seq<(bool, bool)>,
)
    ensures
        (Custody::Held { toplevel, spatial }).shells_made(releases) == if releases.len() > 0
            && releases[0].0 && releases[0].1 {
            1nat
        } else {
            0nat
        },
    decreases releases.len(),
{
    if releases.len() > 0 {
        toplevels_return_once(toplevel, spatial, releases.drop_last());
    }
}

} // verus!
