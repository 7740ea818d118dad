//! Permission states and whether the setup guide is needed.
use vstd::prelude::*;

verus! {

#[derive(Clone, Copy, PartialEq, Eq, Structural, Debug)]
pub enum PermState {
    Granted,
    Denied,
    Unknown,
}

/// What the setup guide shows.
pub struct OnboardingStatus {
    pub mic_permission: PermState,
    pub screen_permission: PermState,
    pub mic_seen: bool,
    pub screen_seen: bool,
    pub model_cached: bool,
    pub has_recorded: bool,
    pub dismissed: bool,
}

/// The microphone permission for an `AVAuthorizationStatus`: 3 is
/// authorized, 1 (restricted) and 2 (denied) are denied, anything else is
/// not yet decided.
pub open spec fn mic_permission_of(status: i64) -> PermState {
    if status == 3 {
        PermState::Granted
    } else if status == 1 || status == 2 {
        PermState::Denied
    } else {
        PermState::Unknown
    }
}

pub fn mic_permission_from_status(status: i64) -> (r: PermState)
    ensures
        r == mic_permission_of(status),
{
    if status == 3 {
        PermState::Granted
    } else if status == 1 || status == 2 {
        PermState::Denied
    } else {
        PermState::Unknown
    }
}

/// The screen-recording permission for what the preflight check answers:
/// granted, or not known yet (the check cannot tell a refusal from a
/// question not yet asked).
pub fn screen_permission_from_preflight(answer: u8) -> (r: PermState)
    ensures
        r == (if answer != 0 { PermState::Granted } else { PermState::Unknown }),
{
    if answer != 0 {
        PermState::Granted
    } else {
        PermState::Unknown
    }
}

/// The microphone permission where the system asks for none (every
/// platform but macOS): always granted.
pub fn check_mic_permission() -> (r: PermState)
    ensures
        r == PermState::Granted,
{
    PermState::Granted
}

/// The screen-recording permission where the system asks for none (every
/// platform but macOS): always granted.
pub fn check_screen_recording_permission() -> (r: PermState)
    ensures
        r == PermState::Granted,
{
    PermState::Granted
}

pub fn permissions_granted(mic: PermState, screen: PermState) -> (r: bool)
    ensures
        r == (mic == PermState::Granted && screen == PermState::Granted),
{
    mic == PermState::Granted && screen == PermState::Granted
}

/// True when both permissions are granted.
pub fn all_permissions_granted() -> (r: bool)
    ensures
        r,
{
    permissions_granted(check_mic_permission(), check_screen_recording_permission())
}

/// Setup is complete when both permissions are granted and the chosen
/// speech model is on disk.
pub fn onboarding_complete(mic: PermState, screen: PermState, model_cached: bool) -> (r: bool)
    ensures
        r == (mic == PermState::Granted && screen == PermState::Granted && model_cached),
{
    permissions_granted(mic, screen) && model_cached
}

/// At launch the setup guide opens when setup is incomplete and the user has
/// not dismissed it.
pub fn should_open_onboarding(complete: bool, dismissed: bool) -> (r: bool)
    ensures
        r == (!complete && !dismissed),
{
    !complete && !dismissed
}

} // verus!
