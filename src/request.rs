//! The host side of one request: what it does as the guest sets the
//! response outparam, drops it, or finishes.
//!
//! The guest runs in a task of its own, which owns the sandbox; the host
//! waits on a one-shot rendezvous for the response. Whatever the order of
//! events, the host answers at most once, and exactly once when the guest
//! task finishes; the sandbox lives until the guest task finishes.

use vstd::prelude::*;

verus! {

/// What the host observes.
#[derive(PartialEq, Eq, Structural, Clone, Copy, Debug)]
pub enum RequestEvent {
    /// The guest set the outparam to a response.
    ResponseSet,
    /// The guest set the outparam to an error.
    ErrorSet,
    /// The outparam was dropped without being set.
    OutparamDropped,
    /// The guest task finished, successfully or not; its sandbox is dropped.
    GuestFinished { ok: bool },
}

/// What the host does in answer.
#[derive(PartialEq, Eq, Structural, Clone, Copy, Debug)]
pub enum RequestAction {
    /// Nothing: the event changes no answer.
    Nothing,
    /// Wait for the guest task to finish.
    AwaitGuest,
    /// Answer with the guest's response; its body streams on.
    SendResponse,
    /// Answer with the guest's error.
    SendError,
    /// Answer with the error that the guest never set a response.
    SendNeverSet,
    /// Answer with the guest task's error, annotated that it never set a response.
    SendGuestError,
}

/// Whether an action answers the request.
pub open spec fn is_answer(a: RequestAction) -> bool {
    match a {
        RequestAction::SendResponse => true,
        RequestAction::SendError => true,
        RequestAction::SendNeverSet => true,
        RequestAction::SendGuestError => true,
        _ => false,
    }
}

/// The state of one request.
#[derive(PartialEq, Eq, Structural, Clone, Copy, Debug)]
pub struct RequestState {
    /// The request has been answered.
    pub answered: bool,
    /// The guest task, and with it the sandbox, is still alive.
    pub guest_running: bool,
}

pub open spec fn initial_state() -> RequestState {
    RequestState { answered: false, guest_running: true }
}

/// One step of the host.
pub open spec fn step_spec(s: RequestState, e: RequestEvent) -> (RequestState, RequestAction) {
    match e {
        RequestEvent::ResponseSet => if s.answered {
            (s, RequestAction::Nothing)
        } else {
            (RequestState { answered: true, ..s }, RequestAction::SendResponse)
        },
        RequestEvent::ErrorSet => if s.answered {
            (s, RequestAction::Nothing)
        } else {
            (RequestState { answered: true, ..s }, RequestAction::SendError)
        },
        RequestEvent::OutparamDropped => if s.answered {
            (s, RequestAction::Nothing)
        } else {
            (s, RequestAction::AwaitGuest)
        },
        RequestEvent::GuestFinished { ok } => if s.answered {
            (RequestState { answered: true, guest_running: false }, RequestAction::Nothing)
        } else {
            (
                RequestState { answered: true, guest_running: false },
                if ok {
                    RequestAction::SendNeverSet
                } else {
                    RequestAction::SendGuestError
                },
            )
        },
    }
}

/// The state after `events`, and the number of answers given on the way.
pub open spec fn run(s: RequestState, events: Seq<RequestEvent>) -> (RequestState, nat)
    decreases events.len(),
{
    if events.len() == 0 {
        (s, 0)
    } else {
        let (next, action) = step_spec(s, events[0]);
        let (last, n) = run(next, events.drop_first());
        (last, n + if is_answer(action) {
            1nat
        } else {
            0nat
        })
    }
}

impl RequestState {
    /// A request whose guest task has just been started.
    pub fn new() -> (r: RequestState)
        ensures
            r == initial_state(),
    {
        RequestState { answered: false, guest_running: true }
    }

    /// Takes in one event and says what to do.
    pub fn step(&mut self, e: RequestEvent) -> (r: RequestAction)
        ensures
            (*final(self), r) == step_spec(*old(self), e),
    {
        match e {
            RequestEvent::ResponseSet => {
                if self.answered {
                    RequestAction::Nothing
                } else {
                    self.answered = true;
                    RequestAction::SendResponse
                }
            },
            RequestEvent::ErrorSet => {
                if self.answered {
                    RequestAction::Nothing
                } else {
                    self.answered = true;
                    RequestAction::SendError
                }
            },
            RequestEvent::OutparamDropped => {
                if self.answered {
                    RequestAction::Nothing
                } else {
                    RequestAction::AwaitGuest
                }
            },
            RequestEvent::GuestFinished { ok } => {
                let was = self.answered;
                self.answered = true;
                self.guest_running = false;
                if was {
                    RequestAction::Nothing
                } else if ok {
                    RequestAction::SendNeverSet
                } else {
                    RequestAction::SendGuestError
                }
            },
        }
    }
}

/// The error of a guest that never set its response.
pub fn never_set_message() -> (r: String)
    ensures
        r@ == "guest never invoked `response-outparam::set` method"@,
{
    String::from_str("guest never invoked `response-outparam::set` method")
}

proof fn lemma_run(s: RequestState, events: Seq<RequestEvent>)
    ensures
        run(s, events).1 <= 1,
        run(s, events).1 == 1 ==> !s.answered,
        run(s, events).0.answered == (s.answered || run(s, events).1 == 1),
        !s.guest_running ==> !run(s, events).0.guest_running,
        (exists|i: int| 0 <= i < events.len() && events[i] is GuestFinished) ==> run(
            s,
            events,
        ).0.answered && !run(s, events).0.guest_running,
    decreases events.len(),
{
    if events.len() > 0 {
        let (next, action) = step_spec(s, events[0]);
        let rest = events.drop_first();
        lemma_run(next, rest);
        if exists|i: int| 0 <= i < events.len() && events[i] is GuestFinished {
            let i = choose|i: int| 0 <= i < events.len() && events[i] is GuestFinished;
            if i > 0 {
                assert(rest[i - 1] == events[i]);
            }
        }
    }
}

/// Whatever the guest does, the host answers a request at most once: a
/// second setting of the outparam, or a finish after an answer, answers
/// nothing.
pub proof fn answers_at_most_once(events: Seq<RequestEvent>)
    ensures
        run(initial_state(), events).1 <= 1,
{
    lemma_run(initial_state(), events);
}

/// Once the guest task has finished, the request has been answered exactly
/// once and its sandbox is gone.
pub proof fn finished_guest_leaves_no_sandbox(events: Seq<RequestEvent>, i: int)
    requires
        0 <= i < events.len(),
        events[i] is GuestFinished,
    ensures
        run(initial_state(), events).1 == 1,
        !run(initial_state(), events).0.guest_running,
{
    lemma_run(initial_state(), events);
}

/// The first answer given over `events`, if any.
pub open spec fn first_answer(s: RequestState, events: Seq<RequestEvent>) -> Option<RequestAction>
    decreases events.len(),
{
    if events.len() == 0 {
        None
    } else {
        let (next, action) = step_spec(s, events[0]);
        if is_answer(action) {
            Some(action)
        } else {
            first_answer(next, events.drop_first())
        }
    }
}

proof fn lemma_first_set(s: RequestState, events: Seq<RequestEvent>, i: int)
    requires
        !s.answered,
        0 <= i < events.len(),
        forall|j: int| 0 <= j < i ==> #[trigger] events[j] == RequestEvent::OutparamDropped,
        events[i] == RequestEvent::ResponseSet || events[i] == RequestEvent::ErrorSet,
    ensures
        first_answer(s, events) == Some(
            if events[i] == RequestEvent::ResponseSet {
                RequestAction::SendResponse
            } else {
                RequestAction::SendError
            },
        ),
    decreases i,
{
    if i > 0 {
        assert(events[0] == RequestEvent::OutparamDropped);
        let rest = events.drop_first();
        assert forall|j: int| 0 <= j < i - 1 implies #[trigger] rest[j]
            == RequestEvent::OutparamDropped by {
            assert(rest[j] == events[j + 1]);
        }
        lemma_first_set(s, rest, i - 1);
    }
}

/// Where the guest sets the outparam before it finishes, the request is
/// answered with what that first setting delivered: its response or its
/// error. Later settings answer nothing (see `answers_at_most_once`).
pub proof fn first_set_is_delivered(events: Seq<RequestEvent>, i: int)
    requires
        0 <= i < events.len(),
        events[i] == RequestEvent::ResponseSet || events[i] == RequestEvent::ErrorSet,
        forall|j: int|
            0 <= j < i ==> !(#[trigger] events[j] == RequestEvent::ResponseSet || events[j]
                == RequestEvent::ErrorSet || events[j] is GuestFinished),
    ensures
        first_answer(initial_state(), events) == Some(
            if events[i] == RequestEvent::ResponseSet {
                RequestAction::SendResponse
            } else {
                RequestAction::SendError
            },
        ),
{
    assert forall|j: int| 0 <= j < i implies #[trigger] events[j] == RequestEvent::OutparamDropped by {
        assert(!(events[j] == RequestEvent::ResponseSet || events[j] == RequestEvent::ErrorSet
            || events[j] is GuestFinished));
    }
    lemma_first_set(initial_state(), events, i);
}

} // verus!
