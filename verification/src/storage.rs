//! Where recordings go and what they are called.
use vstd::prelude::*;

use crate::paths::{file_stem, free_of, join, join_path, parent, path_file_stem, path_parent};
use crate::text::{ascii_lower, char_ascii_lower, char_is_ascii_alnum, chars_of, is_ascii_alnum, string_of};

verus! {

/// The longest slug kept in a file name, in characters.
pub const SLUG_MAX: usize = 60;

/// The `strftime` pattern of the timestamp that starts each file name.
pub const MINUTE_STAMP_FORMAT: &'static str = "%Y-%m-%d_%H-%M";

/// One step of the slug scan: alphanumerics are kept in lower case, and a
/// run of anything else becomes a single dash, except before the first kept
/// character. The flag records whether the last thing written was a dash.
pub open spec fn slug_step(acc: (Seq<char>, bool), c: char) -> (Seq<char>, bool) {
    if is_ascii_alnum(c) {
        (acc.0.push(ascii_lower(c)), false)
    } else if !acc.1 && acc.0.len() > 0 {
        (acc.0.push('-'), true)
    } else {
        acc
    }
}

pub open spec fn slug_scan(s: Seq<char>) -> (Seq<char>, bool)
    decreases s.len(),
{
    if s.len() == 0 {
        (Seq::empty(), false)
    } else {
        slug_step(slug_scan(s.drop_last()), s.last())
    }
}

pub open spec fn strip_trailing_dashes(s: Seq<char>) -> Seq<char>
    decreases s.len(),
{
    if s.len() > 0 && s.last() == '-' {
        strip_trailing_dashes(s.drop_last())
    } else {
        s
    }
}

/// The slug of a title: lower-case ASCII alphanumerics, runs of anything
/// else turned into single dashes, no dash at either end, at most
/// `SLUG_MAX` characters.
pub open spec fn slug_of(title: Seq<char>) -> Seq<char> {
    let core = strip_trailing_dashes(slug_scan(title).0);
    if core.len() > SLUG_MAX {
        strip_trailing_dashes(core.take(SLUG_MAX as int))
    } else {
        core
    }
}

pub open spec fn is_slug_char(c: char) -> bool {
    ('a' <= c && c <= 'z') || ('0' <= c && c <= '9') || c == '-'
}

/// The shape every slug has.
pub open spec fn well_formed_slug(s: Seq<char>) -> bool {
    &&& s.len() <= SLUG_MAX
    &&& forall|i: int| 0 <= i < s.len() ==> is_slug_char(#[trigger] s[i])
    &&& s.len() > 0 ==> s[0] != '-' && s.last() != '-'
    &&& forall|i: int| 0 <= i < s.len() - 1 ==> !(#[trigger] s[i] == '-' && s[i + 1] == '-')
}

/// The file name of a recording: `<stamp>_<slug>.wav`, or `<stamp>.wav` when
/// the title has no slug.
pub open spec fn recording_file_name_of(stamp: Seq<char>, title: Seq<char>) -> Seq<char> {
    let slug = slug_of(title);
    if slug.len() == 0 {
        stamp + ".wav"@
    } else {
        stamp + "_"@ + slug + ".wav"@
    }
}

/// The path of a recording saved with only one of its two inputs: the suffix
/// goes between the stem and `.wav`.
pub open spec fn degraded_path(path: Seq<char>, suffix: Seq<char>) -> Seq<char> {
    let stem = match file_stem(path) {
        Some(s) => s,
        None => "recording"@,
    };
    let dir = match parent(path) {
        Some(p) => p,
        None => "."@,
    };
    join(dir, stem + "_"@ + suffix + ".wav"@)
}

/// The folders that earlier versions used as the default output folder.
pub open spec fn old_defaults_of(docs: Option<Seq<char>>, home: Option<Seq<char>>) -> Seq<
    Seq<char>,
> {
    let a: Seq<Seq<char>> = match docs {
        Some(d) => seq![join(d, "Lord Varys"@)],
        None => seq![],
    };
    let b: Seq<Seq<char>> = match home {
        Some(h) => seq![join(join(h, "Documents"@), "Lord Varys"@)],
        None => seq![],
    };
    a + b
}

/// The default output folder when no source tree is at hand: `Lord Varys`
/// in the documents folder, else in the home folder, else in `.`.
pub open spec fn fallback_output_folder_of(docs: Option<Seq<char>>, home: Option<Seq<char>>) -> Seq<
    char,
> {
    let base = match docs {
        Some(d) => d,
        None => match home {
            Some(h) => h,
            None => "."@,
        },
    };
    join(base, "Lord Varys"@)
}

proof fn lemma_scan_shape(s: Seq<char>)
    ensures
        ({
            let (out, dash) = slug_scan(s);
            &&& forall|i: int| 0 <= i < out.len() ==> is_slug_char(#[trigger] out[i])
            &&& out.len() > 0 ==> out[0] != '-'
            &&& dash <==> (out.len() > 0 && out.last() == '-')
            &&& forall|i: int| 0 <= i < out.len() - 1 ==> !(#[trigger] out[i] == '-' && out[i + 1]
                == '-')
        }),
    decreases s.len(),
{
    if s.len() > 0 {
        lemma_scan_shape(s.drop_last());
        let (prev, _) = slug_scan(s.drop_last());
        let (out, _) = slug_scan(s);
        assert forall|i: int| 0 <= i < out.len() implies is_slug_char(#[trigger] out[i]) by {
            if i < prev.len() {
                assert(out[i] == prev[i]);
            }
        }
        assert forall|i: int| 0 <= i < out.len() - 1 implies !(#[trigger] out[i] == '-' && out[i
            + 1] == '-') by {
            if i + 1 < prev.len() {
                assert(out[i] == prev[i] && out[i + 1] == prev[i + 1]);
            } else if i < prev.len() {
                assert(out[i] == prev[i]);
            }
        }
    }
}

proof fn lemma_strip_shape(s: Seq<char>)
    requires
        forall|i: int| 0 <= i < s.len() ==> is_slug_char(#[trigger] s[i]),
        s.len() > 0 ==> s[0] != '-',
        forall|i: int| 0 <= i < s.len() - 1 ==> !(#[trigger] s[i] == '-' && s[i + 1] == '-'),
    ensures
        ({
            let t = strip_trailing_dashes(s);
            &&& t.len() <= s.len()
            &&& t =~= s.take(t.len() as int)
            &&& t.len() > 0 ==> t.last() != '-'
        }),
    decreases s.len(),
{
    if s.len() > 0 && s.last() == '-' {
        let d = s.drop_last();
        assert forall|i: int| 0 <= i < d.len() implies is_slug_char(#[trigger] d[i]) by {
            assert(d[i] == s[i]);
        }
        assert forall|i: int| 0 <= i < d.len() - 1 implies !(#[trigger] d[i] == '-' && d[i + 1]
            == '-') by {
            assert(d[i] == s[i] && d[i + 1] == s[i + 1]);
        }
        lemma_strip_shape(d);
    } else {
        assert(s.take(s.len() as int) =~= s);
    }
}

/// Every slug is well formed: only lower-case ASCII letters, digits and
/// single dashes between them, and at most `SLUG_MAX` characters.
pub proof fn lemma_slug_well_formed(title: Seq<char>)
    ensures
        well_formed_slug(slug_of(title)),
{
    lemma_scan_shape(title);
    let core0 = slug_scan(title).0;
    lemma_strip_shape(core0);
    let core = strip_trailing_dashes(core0);
    if core.len() > SLUG_MAX {
        let cut = core.take(SLUG_MAX as int);
        assert forall|i: int| 0 <= i < cut.len() implies is_slug_char(#[trigger] cut[i]) by {
            assert(cut[i] == core0[i]);
        }
        assert forall|i: int| 0 <= i < cut.len() - 1 implies !(#[trigger] cut[i] == '-' && cut[i
            + 1] == '-') by {
            assert(cut[i] == core0[i] && cut[i + 1] == core0[i + 1]);
        }
        assert(cut[0] == core0[0]);
        lemma_strip_shape(cut);
        let t = strip_trailing_dashes(cut);
        assert forall|i: int| 0 <= i < t.len() implies is_slug_char(#[trigger] t[i]) by {
            assert(t[i] == cut[i]);
        }
        assert forall|i: int| 0 <= i < t.len() - 1 implies !(#[trigger] t[i] == '-' && t[i + 1]
            == '-') by {
            assert(t[i] == cut[i] && t[i + 1] == cut[i + 1]);
        }
        if t.len() > 0 {
            assert(t[0] == cut[0]);
        }
    } else {
        assert forall|i: int| 0 <= i < core.len() implies is_slug_char(#[trigger] core[i]) by {
            assert(core[i] == core0[i]);
        }
        assert forall|i: int| 0 <= i < core.len() - 1 implies !(#[trigger] core[i] == '-'
            && core[i + 1] == '-') by {
            assert(core[i] == core0[i] && core[i + 1] == core0[i + 1]);
        }
        if core.len() > 0 {
            assert(core[0] == core0[0]);
        }
    }
}

proof fn lemma_scan_without_alnum(s: Seq<char>)
    requires
        forall|i: int| 0 <= i < s.len() ==> !is_ascii_alnum(#[trigger] s[i]),
    ensures
        slug_scan(s) == (Seq::<char>::empty(), false),
    decreases s.len(),
{
    if s.len() > 0 {
        assert(!is_ascii_alnum(s[s.len() - 1]));
        lemma_scan_without_alnum(s.drop_last());
    }
}

/// A title without any ASCII letter or digit (a blank one in particular)
/// has no slug, so its recording is named by the timestamp alone.
pub proof fn lemma_blank_title_has_no_slug(title: Seq<char>)
    requires
        forall|i: int| 0 <= i < title.len() ==> !is_ascii_alnum(#[trigger] title[i]),
    ensures
        slug_of(title).len() == 0,
        forall|stamp: Seq<char>| #[trigger] recording_file_name_of(stamp, title) == stamp + ".wav"@,
{
    lemma_scan_without_alnum(title);
}

fn pop_trailing_dashes(v: &mut Vec<char>)
    ensures
        final(v)@ == strip_trailing_dashes(old(v)@),
{
    while v.len() > 0 && v[v.len() - 1] == '-'
        invariant
            strip_trailing_dashes(v@) == strip_trailing_dashes(old(v)@),
        decreases v.len(),
    {
        let ghost before = v@;
        v.pop();
        assert(v@ =~= before.drop_last());
    }
}

/// Turns a meeting title into the slug used in file names.
pub fn slugify(title: &str) -> (r: String)
    ensures
        r@ == slug_of(title@),
        well_formed_slug(r@),
{
    let chars = chars_of(title);
    let mut out: Vec<char> = Vec::new();
    let mut prev_dash = false;
    let mut i: usize = 0;
    while i < chars.len()
        invariant
            i <= chars.len(),
            chars@ == title@,
            (out@, prev_dash) == slug_scan(title@.take(i as int)),
        decreases chars.len() - i,
    {
        let ch = chars[i];
        assert(title@.take(i + 1).drop_last() =~= title@.take(i as int));
        if char_is_ascii_alnum(ch) {
            out.push(char_ascii_lower(ch));
            prev_dash = false;
        } else if !prev_dash && out.len() > 0 {
            out.push('-');
            prev_dash = true;
        }
        i += 1;
    }
    assert(title@.take(chars.len() as int) =~= title@);
    pop_trailing_dashes(&mut out);
    if out.len() > SLUG_MAX {
        out.truncate(SLUG_MAX);
        pop_trailing_dashes(&mut out);
    }
    proof {
        lemma_slug_well_formed(title@);
    }
    string_of(&out)
}

fn append_chars(out: &mut Vec<char>, s: &str)
    ensures
        final(out)@ == old(out)@ + s@,
{
    let v = chars_of(s);
    let mut i: usize = 0;
    while i < v.len()
        invariant
            i <= v.len(),
            out@ == old(out)@ + v@.take(i as int),
        decreases v.len() - i,
    {
        out.push(v[i]);
        i += 1;
        assert(out@ =~= old(out)@ + v@.take(i as int));
    }
    assert(v@.take(v.len() as int) =~= v@);
}

/// The file name of a recording made at `stamp` with the given title.
pub fn recording_file_name(stamp: &str, title: &str) -> (r: String)
    ensures
        r@ == recording_file_name_of(stamp@, title@),
{
    let slug = slugify(title);
    let mut out: Vec<char> = Vec::new();
    append_chars(&mut out, stamp);
    if slug.unicode_len() == 0 {
        append_chars(&mut out, ".wav");
    } else {
        append_chars(&mut out, "_");
        append_chars(&mut out, slug.as_str());
        append_chars(&mut out, ".wav");
    }
    string_of(&out)
}

pub open spec fn is_digit(c: char) -> bool {
    '0' <= c && c <= '9'
}

/// The shape of the clock's `%Y-%m-%d_%H-%M` text: the year's digits (at
/// least four, with a `+` before them past 9999), then `-MM-DD_HH-MM`.
pub open spec fn stamp_shape(s: Seq<char>) -> bool {
    let n = s.len() as int;
    &&& n >= 16
    &&& (is_digit(s[0]) || s[0] == '+')
    &&& forall|i: int| 1 <= i < n - 12 ==> is_digit(#[trigger] s[i])
    &&& s[n - 12] == '-' && is_digit(s[n - 11]) && is_digit(s[n - 10])
    &&& s[n - 9] == '-' && is_digit(s[n - 8]) && is_digit(s[n - 7])
    &&& s[n - 6] == '_' && is_digit(s[n - 5]) && is_digit(s[n - 4])
    &&& s[n - 3] == '-' && is_digit(s[n - 2]) && is_digit(s[n - 1])
}

/// `chrono::Local::now()` formatted with `fmt`, which is
/// `%Y-%m-%d_%H-%M`. Which minute it shows depends on the clock and is not
/// stated; the shape is chrono's: `%Y` writes four digits for the years
/// 1000 to 9999 and a `+` and the digits past 9999 (the clock, read as time
/// since 1970, gives no earlier year than 1969), and `%m`, `%d`, `%H`, `%M`
/// write two digits each.
#[verifier::external_body]
fn local_now_formatted(fmt: &str) -> (r: String)
    requires
        fmt@ == MINUTE_STAMP_FORMAT@,
    ensures
        stamp_shape(r@),
{
    chrono::Local::now().format(fmt).to_string()
}

/// Builds `<out_dir>/<YYYY-MM-DD_HH-MM>_<slug>.wav` for a recording that
/// starts now; the `_<slug>` part is left out when the title has none.
pub fn build_recording_path(out_dir: &str, title: &str) -> (r: String)
    ensures
        exists|stamp: Seq<char>|
            stamp_shape(stamp) && r@ == join(out_dir@, #[trigger] recording_file_name_of(stamp, title@)),
{
    let stamp = local_now_formatted(MINUTE_STAMP_FORMAT);
    let name = recording_file_name(stamp.as_str(), title);
    let r = join_path(out_dir, name.as_str());
    assert(stamp_shape(stamp@) && r@ == join(out_dir@, recording_file_name_of(stamp@, title@)));
    r
}

/// A recording's file name, for any stamp of the clock's shape: it starts
/// with the stamp, holds no `/`, is at least as long as
/// `YYYY-MM-DD_HH-MM.wav`, ends with `.wav`, and has no `_` right before a
/// `.`; so it is the file name of the path it is joined to.
pub proof fn lemma_recording_name_shape(dir: Seq<char>, stamp: Seq<char>, title: Seq<char>)
    requires
        stamp_shape(stamp),
    ensures
        ({
            let name = recording_file_name_of(stamp, title);
            &&& name.take(stamp.len() as int) == stamp
            &&& free_of(name, '/')
            &&& name.len() >= 20
            &&& name.skip(name.len() - 4) == ".wav"@
            &&& forall|i: int|
                0 <= i < name.len() - 1 ==> !(#[trigger] name[i] == '_' && name[i + 1] == '.')
            &&& crate::paths::file_name(join(dir, name)) == Some(name)
        }),
{
    reveal_strlit(".wav");
    reveal_strlit("_");
    lemma_slug_well_formed(title);
    let slug = slug_of(title);
    let name = recording_file_name_of(stamp, title);
    let n = stamp.len() as int;
    let mid: Seq<char> = if slug.len() == 0 {
        Seq::empty()
    } else {
        "_"@ + slug
    };
    assert(name =~= stamp + mid + ".wav"@);
    let m = mid.len() as int;
    // What each position of the name holds.
    assert forall|i: int| 0 <= i < n implies name[i] == stamp[i] && stamp[i] != '/' && stamp[i]
        != '.' && (stamp[i] == '_' ==> i == n - 6) by {
        if 1 <= i < n - 12 {
            assert(is_digit(stamp[i]));
        }
    }
    assert forall|i: int| n <= i < n + m implies name[i] == mid[i - n] && mid[i - n] != '/'
        && mid[i - n] != '.' && (mid[i - n] == '_' ==> i == n) by {
        if i > n {
            assert(mid[i - n] == slug[i - n - 1]);
            assert(is_slug_char(slug[i - n - 1]));
        }
    }
    assert forall|i: int| n + m <= i < name.len() implies name[i] == ".wav"@[i - n - m] by {}
    assert(free_of(name, '/'));
    assert forall|i: int| 0 <= i < name.len() - 1 implies !(#[trigger] name[i] == '_' && name[i
        + 1] == '.') by {
        if i == n - 6 {
            assert(is_digit(stamp[n - 5]));
        } else if i == n && m > 0 {
            assert(mid[1] == slug[0]);
            assert(is_slug_char(slug[0]));
        }
    }
    assert(name.take(n) =~= stamp);
    assert(name.skip(name.len() - 4) =~= ".wav"@);
    assert(name.last() == 'v');
    crate::paths::lemma_join_file_name(dir, name);
}

/// Puts `_<suffix>` between the stem and the `.wav` extension, for
/// recordings saved with only one of their two inputs.
pub fn with_degraded_suffix(path: &str, suffix: &str) -> (r: String)
    requires
        path@.len() < isize::MAX,
    ensures
        r@ == degraded_path(path@, suffix@),
{
    let stem: String = match path_file_stem(path) {
        Some(s) => s,
        None => String::from_str("recording"),
    };
    let dir: String = match path_parent(path) {
        Some(p) => p,
        None => String::from_str("."),
    };
    let mut file: Vec<char> = Vec::new();
    append_chars(&mut file, stem.as_str());
    append_chars(&mut file, "_");
    append_chars(&mut file, suffix);
    append_chars(&mut file, ".wav");
    let file_s = string_of(&file);
    join_path(dir.as_str(), file_s.as_str())
}

/// `dirs::document_dir()`, as text. Where the documents folder is depends
/// on the user's environment, so nothing is stated of it.
#[verifier::external_body]
fn document_dir() -> Option<String> {
    dirs::document_dir().map(|p| p.to_string_lossy().into_owned())
}

/// `dirs::home_dir()`, as text. It depends on the user's environment, so
/// nothing is stated of it.
#[verifier::external_body]
fn home_dir() -> Option<String> {
    dirs::home_dir().map(|p| p.to_string_lossy().into_owned())
}

pub fn old_defaults_from(docs: Option<String>, home: Option<String>) -> (r: Vec<String>)
    ensures
        r@.map_values(|s: String| s@) == old_defaults_of(
            crate::text::opt_string_view(docs),
            crate::text::opt_string_view(home),
        ),
{
    let mut out: Vec<String> = Vec::new();
    let ghost dv = crate::text::opt_string_view(docs);
    let ghost hv = crate::text::opt_string_view(home);
    if let Some(d) = docs {
        out.push(join_path(d.as_str(), "Lord Varys"));
    }
    if let Some(h) = home {
        let docs_dir = join_path(h.as_str(), "Documents");
        out.push(join_path(docs_dir.as_str(), "Lord Varys"));
    }
    assert(out@.map_values(|s: String| s@) =~= old_defaults_of(dv, hv));
    out
}

/// The folders that earlier versions used as the default output folder:
/// `Lord Varys` in the documents folder and in `~/Documents`, for those the
/// platform has.
pub fn known_old_defaults() -> (r: Vec<String>)
    ensures
        exists|d: Option<Seq<char>>, h: Option<Seq<char>>|
            r@.map_values(|s: String| s@) == old_defaults_of(d, h),
{
    let d = document_dir();
    let h = home_dir();
    let ghost dv = crate::text::opt_string_view(d);
    let ghost hv = crate::text::opt_string_view(h);
    let r = old_defaults_from(d, h);
    assert(r@.map_values(|s: String| s@) == old_defaults_of(dv, hv));
    r
}

pub fn fallback_output_folder(docs: Option<String>, home: Option<String>) -> (r: String)
    ensures
        r@ == fallback_output_folder_of(
            crate::text::opt_string_view(docs),
            crate::text::opt_string_view(home),
        ),
{
    let base = match docs {
        Some(d) => d,
        None => match home {
            Some(h) => h,
            None => String::from_str("."),
        },
    };
    join_path(base.as_str(), "Lord Varys")
}

/// The default output folder: `recordings/` in the source tree when there
/// is one (`repo` is given only when it exists), else `Lord Varys` in the
/// user's documents or home folder.
pub fn default_output_folder(repo: Option<&str>) -> (r: String)
    ensures
        repo matches Some(d) ==> r@ == join(d@, "recordings"@),
        repo.is_none() ==> exists|d: Option<Seq<char>>, h: Option<Seq<char>>|
            r@ == fallback_output_folder_of(d, h),
{
    match repo {
        Some(d) => join_path(d, "recordings"),
        None => {
            let d = document_dir();
            let h = home_dir();
            let ghost dv = crate::text::opt_string_view(d);
            let ghost hv = crate::text::opt_string_view(h);
            let r = fallback_output_folder(d, h);
            assert(r@ == fallback_output_folder_of(dv, hv));
            r
        },
    }
}

/// Which preferences get their default value at launch.
pub struct SeedPlan {
    pub output_folder: bool,
    pub mic_gain: bool,
    pub sys_gain: bool,
}

/// The output folder is reset when unset or still an old default; each
/// gain is set only when unset.
pub fn seed_plan(
    stored_output: Option<String>,
    old_defaults: &Vec<String>,
    mic_gain_stored: bool,
    sys_gain_stored: bool,
) -> (r: SeedPlan)
    ensures
        r.output_folder == match stored_output {
            None => true,
            Some(s) => crate::settings::list_has_path(old_defaults@, s@),
        },
        r.mic_gain == !mic_gain_stored,
        r.sys_gain == !sys_gain_stored,
{
    SeedPlan {
        output_folder: crate::settings::output_folder_needs_seed(stored_output, old_defaults),
        mic_gain: !mic_gain_stored,
        sys_gain: !sys_gain_stored,
    }
}

} // verus!
