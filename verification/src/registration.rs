//! When the server registers itself with the master server.
//!
//! The address of the master server is asked for; then the server registers
//! again and again for a while, and asks anew. The caller carries out the actions
//! and reports what came of them.
use crate::updates::game_header;
use vstd::prelude::*;

verus! {

/// How often the server registers before it asks for the address anew.
pub const REGISTRATIONS: u32 = 60;

/// Seconds between one registration and the next.
pub const REGISTRATION_PAUSE: u64 = 10;

/// Seconds before the address is asked for again where it was not found.
pub const RETRY_PAUSE: u64 = 15;

/// What the server is waiting for.
#[derive(Copy, Clone, PartialEq, Eq, Structural, Debug)]
pub enum HQMRegistration {
    /// The address of the master server.
    Asking,
    /// The time to ask for it again.
    Retrying,
    /// That a registration has been sent. With it, `left` are to be sent.
    Sending { left: u32 },
    /// The time to register again. As many as `left` are to be sent still.
    Pausing { left: u32 },
}

/// What came of an action.
#[derive(Copy, Clone, PartialEq, Eq, Structural, Debug)]
pub enum HQMRegistrationEvent {
    Found,
    NotFound,
    Sent,
    SendFailed,
    Waited,
}

/// What is to be done next.
#[derive(Copy, Clone, PartialEq, Eq, Structural, Debug)]
pub enum HQMRegistrationAction {
    /// The address of the master server is to be asked for.
    Ask,
    /// A registration is to be sent to it.
    Send,
    /// So many seconds are to pass.
    Wait(u64),
}

/// What is to be done after an event. After one that does not belong to the
/// state everything starts anew.
pub open spec fn registration_step(state: HQMRegistration, event: HQMRegistrationEvent) -> (
    HQMRegistration,
    HQMRegistrationAction,
) {
    match (state, event) {
        (HQMRegistration::Asking, HQMRegistrationEvent::Found) => (
            HQMRegistration::Sending { left: REGISTRATIONS },
            HQMRegistrationAction::Send,
        ),
        (HQMRegistration::Asking, HQMRegistrationEvent::NotFound) => (
            HQMRegistration::Retrying,
            HQMRegistrationAction::Wait(RETRY_PAUSE),
        ),
        (HQMRegistration::Sending { left }, HQMRegistrationEvent::Sent) => (
            HQMRegistration::Pausing {
                left: if left == 0 {
                    0
                } else {
                    (left - 1) as u32
                },
            },
            HQMRegistrationAction::Wait(REGISTRATION_PAUSE),
        ),
        (HQMRegistration::Pausing { left }, HQMRegistrationEvent::Waited) => if left > 0 {
            (HQMRegistration::Sending { left }, HQMRegistrationAction::Send)
        } else {
            (HQMRegistration::Asking, HQMRegistrationAction::Ask)
        },
        _ => (HQMRegistration::Asking, HQMRegistrationAction::Ask),
    }
}

/// Finds out what is to be done after an event.
pub fn next_registration(state: HQMRegistration, event: HQMRegistrationEvent) -> (r: (
    HQMRegistration,
    HQMRegistrationAction,
))
    ensures
        r == registration_step(state, event),
{
    match (state, event) {
        (HQMRegistration::Asking, HQMRegistrationEvent::Found) => {
            (HQMRegistration::Sending { left: REGISTRATIONS }, HQMRegistrationAction::Send)
        },
        (HQMRegistration::Asking, HQMRegistrationEvent::NotFound) => {
            (HQMRegistration::Retrying, HQMRegistrationAction::Wait(RETRY_PAUSE))
        },
        (HQMRegistration::Sending { left }, HQMRegistrationEvent::Sent) => {
            let left: u32 = if left == 0 {
                0
            } else {
                left - 1
            };
            (
                HQMRegistration::Pausing { left },
                HQMRegistrationAction::Wait(REGISTRATION_PAUSE),
            )
        },
        (HQMRegistration::Pausing { left }, HQMRegistrationEvent::Waited) => {
            if left > 0 {
                (HQMRegistration::Sending { left }, HQMRegistrationAction::Send)
            } else {
                (HQMRegistration::Asking, HQMRegistrationAction::Ask)
            }
        },
        _ => (HQMRegistration::Asking, HQMRegistrationAction::Ask),
    }
}

/// The message that registers the server.
pub fn registration_message() -> (bytes: Vec<u8>)
    ensures
        bytes@ == game_header().push(0x20),
{
    let bytes: Vec<u8> = vec![0x48, 0x6f, 0x63, 0x6b, 0x20];
    assert(bytes@ =~= game_header().push(0x20));
    bytes
}

/// The state after `n` registrations have been sent and the pause after each has passed.
pub open spec fn after_rounds(state: HQMRegistration, n: nat) -> HQMRegistration
    decreases n,
{
    if n == 0 {
        state
    } else {
        let before = after_rounds(state, (n - 1) as nat);
        let sent = registration_step(before, HQMRegistrationEvent::Sent).0;
        registration_step(sent, HQMRegistrationEvent::Waited).0
    }
}

/// Once the master server has been found and as long as sending succeeds, the
/// server registers 60 times and then asks for the address anew.
pub proof fn law_registration_rounds(n: nat)
    requires
        n <= REGISTRATIONS,
    ensures
        ({
            let found = registration_step(
                HQMRegistration::Asking,
                HQMRegistrationEvent::Found,
            ).0;
            after_rounds(found, n) == (if n < REGISTRATIONS {
                HQMRegistration::Sending { left: (REGISTRATIONS - n) as u32 }
            } else {
                HQMRegistration::Asking
            })
        }),
    decreases n,
{
    if n > 0 {
        law_registration_rounds((n - 1) as nat);
    }
}

} // verus!
