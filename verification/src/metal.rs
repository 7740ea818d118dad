//! Where the GPU shader of the speech recogniser is looked for.
use vstd::prelude::*;

use crate::paths::{join, join_path, parent, path_parent};

verus! {

/// Where the system has nothing to set up (every platform but macOS), this
/// does nothing.
pub fn ensure_metal_resources() {
}

/// The `Resources` folder of the app bundle holding the executable
/// (`<bundle>/Contents/MacOS/<exe>` gives `<bundle>/Contents/Resources`).
pub open spec fn bundle_resources_of(exe: Seq<char>) -> Option<Seq<char>> {
    match parent(exe) {
        Some(p) => match parent(p) {
            Some(c) => Some(join(c, "Resources"@)),
            None => None,
        },
        None => None,
    }
}

pub fn bundle_resources_dir(exe: &str) -> (r: Option<String>)
    requires
        exe@.len() < isize::MAX,
    ensures
        match r {
            Some(s) => bundle_resources_of(exe@) == Some(s@),
            None => bundle_resources_of(exe@).is_none(),
        },
{
    match path_parent(exe) {
        Some(p) => {
            proof {
                crate::paths::lemma_parent_len(exe@);
            }
            match path_parent(p.as_str()) {
                Some(c) => Some(join_path(c.as_str(), "Resources")),
                None => None,
            }
        },
        None => None,
    }
}

/// The shader file inside a resources folder.
pub fn shader_path(resources: &str) -> (r: String)
    ensures
        r@ == join(resources@, "ggml-metal.metal"@),
{
    join_path(resources, "ggml-metal.metal")
}

/// Which resources folder to point the recogniser at: none when one is
/// already set; otherwise the bundle's if it holds the shader, else the
/// development one if it does.
pub fn choose_metal_resources(
    already_set: bool,
    bundle: Option<String>,
    bundle_has_shader: bool,
    dev: Option<String>,
    dev_has_shader: bool,
) -> (r: Option<String>)
    ensures
        already_set ==> r.is_none(),
        !already_set ==> r == (if bundle.is_some() && bundle_has_shader {
            bundle
        } else if dev.is_some() && dev_has_shader {
            dev
        } else {
            None
        }),
{
    if already_set {
        return None;
    }
    if bundle.is_some() && bundle_has_shader {
        bundle
    } else if dev.is_some() && dev_has_shader {
        dev
    } else {
        None
    }
}

} // verus!
