use hqm_server::registration::{
    next_registration, registration_message, HQMRegistration, HQMRegistrationAction,
    HQMRegistrationEvent,
};

#[test]
fn registration_goes_on_for_sixty_rounds() {
    let (mut state, mut action) =
        next_registration(HQMRegistration::Asking, HQMRegistrationEvent::Found);
    let mut sent = 0;
    while action == HQMRegistrationAction::Send {
        sent += 1;
        (state, action) = next_registration(state, HQMRegistrationEvent::Sent);
        assert_eq!(action, HQMRegistrationAction::Wait(10));
        (state, action) = next_registration(state, HQMRegistrationEvent::Waited);
    }
    assert_eq!(sent, 60);
    assert_eq!((state, action), (HQMRegistration::Asking, HQMRegistrationAction::Ask));
}

#[test]
fn failed_registration_asks_anew() {
    let state = HQMRegistration::Sending { left: 30 };
    let next = next_registration(state, HQMRegistrationEvent::SendFailed);
    assert_eq!(next, (HQMRegistration::Asking, HQMRegistrationAction::Ask));
}

#[test]
fn missing_master_server_is_asked_for_later() {
    let (state, action) =
        next_registration(HQMRegistration::Asking, HQMRegistrationEvent::NotFound);
    assert_eq!(action, HQMRegistrationAction::Wait(15));
    let next = next_registration(state, HQMRegistrationEvent::Waited);
    assert_eq!(next, (HQMRegistration::Asking, HQMRegistrationAction::Ask));
}

#[test]
fn the_message_that_registers() {
    assert_eq!(registration_message(), b"Hock\x20".to_vec());
}
