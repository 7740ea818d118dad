//! The keys of the stored preferences and how stored text is read back.
use vstd::prelude::*;

use crate::paths::{path_eq, same_path};
use crate::text::str_eq;

verus! {

pub const KEY_OUTPUT_FOLDER: &'static str = "output_folder";
pub const KEY_MIC_GAIN: &'static str = "mic_gain";
pub const KEY_SYS_GAIN: &'static str = "sys_gain";
pub const KEY_WHISPER_MODEL: &'static str = "whisper_model";
pub const KEY_ONBOARDING_DISMISSED: &'static str = "onboarding_dismissed";
pub const KEY_MIC_PERMISSION_SEEN: &'static str = "mic_permission_seen";
pub const KEY_SCREEN_PERMISSION_SEEN: &'static str = "screen_permission_seen";

/// The stored value, or `default` when there is none.
pub fn setting_or_default(stored: Option<String>, default: &str) -> (r: String)
    ensures
        r@ == match stored {
            Some(s) => s@,
            None => default@,
        },
{
    match stored {
        Some(s) => s,
        None => String::from_str(default),
    }
}

/// What a stored flag reads as: exactly `true` or `false`; anything else,
/// or nothing, reads as `default`.
pub open spec fn flag_of(stored: Option<Seq<char>>, default: bool) -> bool {
    match stored {
        Some(s) => if s == "true"@ {
            true
        } else if s == "false"@ {
            false
        } else {
            default
        },
        None => default,
    }
}

/// The text a flag is stored as.
pub open spec fn flag_text(b: bool) -> Seq<char> {
    if b {
        "true"@
    } else {
        "false"@
    }
}

/// Reads a stored flag.
pub fn setting_bool(stored: Option<String>, default: bool) -> (r: bool)
    ensures
        r == flag_of(crate::text::opt_string_view(stored), default),
{
    match stored {
        Some(s) => {
            if str_eq(s.as_str(), "true") {
                true
            } else if str_eq(s.as_str(), "false") {
                false
            } else {
                default
            }
        },
        None => default,
    }
}

pub fn bool_setting_text(b: bool) -> (r: &'static str)
    ensures
        r@ == flag_text(b),
{
    if b {
        "true"
    } else {
        "false"
    }
}

/// A flag reads back as it was written, whatever the default.
pub proof fn lemma_flag_round_trip(b: bool, default: bool)
    ensures
        flag_of(Some(flag_text(b)), default) == b,
{
    reveal_strlit("true");
    reveal_strlit("false");
    assert("false"@ != "true"@) by {
        assert("false"@.len() != "true"@.len());
    }
}

/// Whether `list` holds a path equal to `s` as a `Path`.
pub open spec fn list_has_path(list: Seq<String>, s: Seq<char>) -> bool {
    exists|i: int| 0 <= i < list.len() && same_path(#[trigger] list[i]@, s)
}

fn list_contains_path(list: &Vec<String>, s: &str) -> (r: bool)
    ensures
        r == list_has_path(list@, s@),
{
    let mut i: usize = 0;
    while i < list.len()
        invariant
            i <= list.len(),
            forall|k: int| 0 <= k < i ==> !same_path(#[trigger] list@[k]@, s@),
        decreases list.len() - i,
    {
        if path_eq(list[i].as_str(), s) {
            assert(same_path(list@[i as int]@, s@));
            return true;
        }
        i += 1;
    }
    false
}

/// Whether the output folder must be (re)set to the current default: when
/// none is stored, or when the stored one is, as a path, a default of an
/// earlier version.
pub fn output_folder_needs_seed(stored: Option<String>, old_defaults: &Vec<String>) -> (r: bool)
    ensures
        r == match stored {
            None => true,
            Some(s) => list_has_path(old_defaults@, s@),
        },
{
    match stored {
        None => true,
        Some(s) => list_contains_path(old_defaults, s.as_str()),
    }
}

} // verus!
