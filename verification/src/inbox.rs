//! What waits for the task of a client, and in which order it is taken.
use crate::error::WaylandError;
use crate::message::Message;
use crate::socket::Incoming;
use crate::types::ObjectId;
use std::collections::VecDeque;
use vstd::prelude::*;

verus! {

/// What came from a client's socket.
#[derive(Debug, Clone, Copy, PartialEq, Eq)]
pub enum Arrival {
    Disconnected,
    ReadError(WaylandError),
    /// A request to an object.
    Request(ObjectId),
}

impl Arrival {
    pub open spec fn incoming(self) -> Incoming {
        match self {
            Arrival::Disconnected => Incoming::Disconnected,
            Arrival::ReadError(e) => Incoming::ReadError(e),
            Arrival::Request(object) => Incoming::Request(object),
        }
    }
}

/// What waits for the task of a client: messages, and what came from its socket.
pub struct Inbox {
    messages: VecDeque<Message>,
    closed: bool,
    arrivals: VecDeque<Arrival>,
}

#[verifier::ext_equal]
pub ghost struct InboxView {
    /// The messages that wait, oldest first.
    pub messages: Seq<Message>,
    /// Whether nobody can send messages any more.
    pub closed: bool,
    /// What came from the socket, oldest first.
    pub arrivals: Seq<Arrival>,
}

impl View for Inbox {
    type V = InboxView;

    closed spec fn view(&self) -> InboxView {
        InboxView {
            messages: self.messages@,
            closed: self.closed,
            arrivals: self.arrivals@,
        }
    }
}

impl InboxView {
    /// What is taken next, and what is left then: messages come before everything else, then
    /// that there will be no more of them, then what came from the socket.
    pub open spec fn taken(self) -> (Option<Incoming>, InboxView) {
        if self.messages.len() > 0 {
            (
                Some(Incoming::Message(self.messages[0])),
                InboxView { messages: self.messages.skip(1), ..self },
            )
        } else if self.closed {
            (Some(Incoming::MessagesClosed), self)
        } else if self.arrivals.len() > 0 {
            (
                Some(self.arrivals[0].incoming()),
                InboxView { arrivals: self.arrivals.skip(1), ..self },
            )
        } else {
            (None, self)
        }
    }

    /// What is left after something was taken so many times.
    pub open spec fn left_after(self, n: nat) -> InboxView
        decreases n,
    {
        if n == 0 {
            self
        } else {
            self.left_after((n - 1) as nat).taken().1
        }
    }
}

impl Inbox {
    pub fn new() -> (inbox: Self)
        ensures
            inbox@ == (InboxView {
                messages: Seq::empty(),
                closed: false,
                arrivals: Seq::empty(),
            }),
    {
        Inbox { messages: VecDeque::new(), closed: false, arrivals: VecDeque::new() }
    }

    /// A message was sent.
    pub fn push_message(&mut self, message: Message)
        ensures
            final(self)@ == (InboxView {
                messages: old(self)@.messages.push(message),
                ..old(self)@
            }),
    {
        self.messages.push_back(message);
    }

    /// Nobody can send messages any more.
    pub fn close(&mut self)
        ensures
            final(self)@ == (InboxView { closed: true, ..old(self)@ }),
    {
        self.closed = true;
    }

    /// Something came from the socket.
    pub fn push_arrival(&mut self, arrival: Arrival)
        ensures
            final(self)@ == (InboxView {
                arrivals: old(self)@.arrivals.push(arrival),
                ..old(self)@
            }),
    {
        self.arrivals.push_back(arrival);
    }

    /// Takes what is to be handled next, if anything waits.
    pub fn take(&mut self) -> (incoming: Option<Incoming>)
        ensures
            (incoming, final(self)@) == old(self)@.taken(),
    {
        let ghost before = self@;
        if let Some(message) = self.messages.pop_front() {
            assert(self@.messages =~= before.messages.skip(1));
            return Some(Incoming::Message(message));
        }
        if self.closed {
            return Some(Incoming::MessagesClosed);
        }
        match self.arrivals.pop_front() {
            Some(arrival) => {
                assert(self@.arrivals =~= before.arrivals.skip(1));
                match arrival {
                    Arrival::Disconnected => Some(Incoming::Disconnected),
                    Arrival::ReadError(e) => Some(Incoming::ReadError(e)),
                    Arrival::Request(object) => Some(Incoming::Request(object)),
                }
            },
            None => None,
        }
    }
}

/// All messages that wait are taken, in the order in which they were sent, before anything
/// that came from the socket.
pub proof fn messages_come_first(inbox: InboxView)
    ensures
        forall|i: int|
            0 <= i < inbox.messages.len() ==> #[trigger] inbox.left_after(i as nat).taken().0
                == Some(Incoming::Message(inbox.messages[i])),
        inbox.left_after(inbox.messages.len()) == (InboxView {
            messages: Seq::empty(),
            ..inbox
        }),
        !inbox.closed && inbox.arrivals.len() > 0 ==> inbox.left_after(
            inbox.messages.len(),
        ).taken().0 == Some(inbox.arrivals[0].incoming()),
{
    assert forall|i: int| 0 <= i < inbox.messages.len() implies #[trigger] inbox.left_after(
        i as nat,
    ).taken().0 == Some(Incoming::Message(inbox.messages[i])) by {
        lemma_left_after(inbox, i as nat);
    }
    lemma_left_after(inbox, inbox.messages.len());
    assert(inbox.messages.skip(inbox.messages.len() as int) =~= Seq::empty());
}

proof fn lemma_left_after(inbox: InboxView, n: nat)
    requires
        n <= inbox.messages.len(),
    ensures
        inbox.left_after(n) == (InboxView { messages: inbox.messages.skip(n as int), ..inbox }),
    decreases n,
{
    if n == 0 {
        assert(inbox.messages.skip(0) =~= inbox.messages);
    } else {
        lemma_left_after(inbox, (n - 1) as nat);
        assert(inbox.messages.skip(n - 1).skip(1) =~= inbox.messages.skip(n as int));
    }
}

/// Whatever else came in meanwhile, a request is never taken while a message waits, and the
/// requests of a client are taken in the order in which it made them.
pub proof fn requests_wait_for_messages(inbox: InboxView, object: ObjectId)
    requires
        inbox.taken().0 == Some(Incoming::Request(object)),
    ensures
        inbox.messages.len() == 0,
        !inbox.closed,
        inbox.arrivals[0] == Arrival::Request(object),
        inbox.taken().1.arrivals == inbox.arrivals.skip(1),
{
}

} // verus!
