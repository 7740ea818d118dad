//! Which inputs a recording captures, and the file it goes to.
use vstd::prelude::*;

use crate::error::Error;
use crate::onboarding::PermState;
use crate::storage::{degraded_path, with_degraded_suffix};

verus! {

/// Which inputs to open, from the two permissions. Fails when neither is
/// granted: there would be nothing to record.
pub fn plan_capture(mic: PermState, screen: PermState) -> (r: Result<(bool, bool), Error>)
    ensures
        mic != PermState::Granted && screen != PermState::Granted ==> (r matches Err(
            Error::PermissionRequired(m),
        ) && m@ == "neither microphone nor screen recording is granted"@),
        mic == PermState::Granted || screen == PermState::Granted ==> r == Ok::<(bool, bool), Error>(
            (mic == PermState::Granted, screen == PermState::Granted),
        ),
{
    let mic_ok = mic == PermState::Granted;
    let scr_ok = screen == PermState::Granted;
    if !mic_ok && !scr_ok {
        return Err(Error::PermissionRequired("neither microphone nor screen recording is granted"));
    }
    Ok((mic_ok, scr_ok))
}

/// Where a recording goes once it is known which inputs opened: the plain
/// path with both, a `_mic-only` or `_sys-only` variant with one, and an
/// error with none.
pub fn capture_output_path(base: &str, mic_open: bool, sys_open: bool) -> (r: Result<String, Error>)
    requires
        base@.len() < isize::MAX,
    ensures
        mic_open && sys_open ==> (r matches Ok(p) && p@ == base@),
        mic_open && !sys_open ==> (r matches Ok(p) && p@ == degraded_path(base@, "mic-only"@)),
        !mic_open && sys_open ==> (r matches Ok(p) && p@ == degraded_path(base@, "sys-only"@)),
        !mic_open && !sys_open ==> (r matches Err(Error::Audio(m)) && m@
            == "neither input stream could be opened"@),
{
    if mic_open && sys_open {
        Ok(String::from_str(base))
    } else if mic_open {
        Ok(with_degraded_suffix(base, "mic-only"))
    } else if sys_open {
        Ok(with_degraded_suffix(base, "sys-only"))
    } else {
        Err(Error::Audio(String::from_str("neither input stream could be opened")))
    }
}

} // verus!
