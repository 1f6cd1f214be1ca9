use wasm_runner::{never_set_message, RequestAction, RequestEvent, RequestState};

#[test]
fn response_is_answered_once() {
    let mut s = RequestState::new();
    assert_eq!(s.step(RequestEvent::ResponseSet), RequestAction::SendResponse);
    assert_eq!(s.step(RequestEvent::ResponseSet), RequestAction::Nothing);
    assert_eq!(s.step(RequestEvent::ErrorSet), RequestAction::Nothing);
    assert!(s.guest_running);
    assert_eq!(s.step(RequestEvent::GuestFinished { ok: true }), RequestAction::Nothing);
    assert!(!s.guest_running);
}

#[test]
fn guest_error_is_answered() {
    let mut s = RequestState::new();
    assert_eq!(s.step(RequestEvent::ErrorSet), RequestAction::SendError);
    assert_eq!(s.step(RequestEvent::OutparamDropped), RequestAction::Nothing);
}

#[test]
fn guest_that_never_sets() {
    let mut s = RequestState::new();
    assert_eq!(s.step(RequestEvent::OutparamDropped), RequestAction::AwaitGuest);
    assert_eq!(s.step(RequestEvent::GuestFinished { ok: true }), RequestAction::SendNeverSet);
    assert!(s.answered);
    assert!(!s.guest_running);
    assert!(never_set_message().contains("guest never invoked `response-outparam::set`"));
}

#[test]
fn failing_guest_that_never_sets() {
    let mut s = RequestState::new();
    assert_eq!(s.step(RequestEvent::OutparamDropped), RequestAction::AwaitGuest);
    assert_eq!(s.step(RequestEvent::GuestFinished { ok: false }), RequestAction::SendGuestError);
    assert_eq!(s.step(RequestEvent::ResponseSet), RequestAction::Nothing);
}
