//! The checks and views behind the settings window's requests.
use vstd::multiset::Multiset;
use vstd::prelude::*;

use crate::model::{model_of_id, WhisperModel};
use crate::paths::{extension, file_name, path_extension, path_file_name, path_with_extension, with_extension};
use crate::text::{chars_of, str_eq, trim, trimmed};
use crate::transcription::TranscriptionState;

verus! {

/// The longest auto-delete period accepted, in days (ten years).
pub const MAX_AUTO_DELETE_DAYS: u32 = 3650;

pub struct RecordingStatus {
    pub is_recording: bool,
    pub out_path: Option<String>,
}

/// A recording in the output folder.
pub struct RecordingEntry {
    pub wav_path: String,
    pub file_name: String,
    pub has_transcript: bool,
    pub transcript_path: Option<String>,
}

pub struct ModelInfo {
    pub id: String,
    pub short_name: String,
    pub size_label: String,
    pub is_cached: bool,
    pub is_active: bool,
}

/// The recording status for the path of the recording under way, if any.
pub fn recording_status(out_path: Option<String>) -> (r: RecordingStatus)
    ensures
        r.is_recording == out_path.is_some(),
        r.out_path == out_path,
{
    RecordingStatus { is_recording: out_path.is_some(), out_path }
}

pub fn clamp_auto_delete_days(days: u32) -> (r: u32)
    ensures
        r == (if days <= MAX_AUTO_DELETE_DAYS { days } else { MAX_AUTO_DELETE_DAYS }),
{
    if days <= MAX_AUTO_DELETE_DAYS {
        days
    } else {
        MAX_AUTO_DELETE_DAYS
    }
}

/// Accepts only the id of a known model.
pub fn check_whisper_model_id(model: &str) -> (r: Result<(), String>)
    ensures
        r is Ok <==> model_of_id(model@).is_some(),
        r matches Err(m) ==> m@ == "unknown model: "@ + model@,
{
    match WhisperModel::from_id(model) {
        Some(_) => Ok(()),
        None => {
            let mut m = String::from_str("unknown model: ");
            m.append(model);
            Err(m)
        },
    }
}

/// Refuses an output folder that is empty or only white space.
pub fn check_output_folder(path: &str) -> (r: Result<(), String>)
    ensures
        r is Ok <==> trimmed(path@).len() > 0,
        r matches Err(m) ==> m@ == "output folder cannot be empty"@,
{
    let t = trim(path);
    if t.unicode_len() == 0 {
        Err(String::from_str("output folder cannot be empty"))
    } else {
        Ok(())
    }
}

/// Refuses to transcribe a recording that is not there.
pub fn check_wav_exists(path: &str, exists: bool) -> (r: Result<(), String>)
    ensures
        r is Ok <==> exists,
        r matches Err(m) ==> m@ == "WAV not found: "@ + path@,
{
    if exists {
        Ok(())
    } else {
        let mut m = String::from_str("WAV not found: ");
        m.append(path);
        Err(m)
    }
}

/// The title a recording is named after: the given name trimmed, or
/// `manual` when there is none or it is blank.
pub fn recording_title(name: Option<&str>) -> (r: String)
    ensures
        r@ == match name {
            Some(n) => if trimmed(n@).len() > 0 {
                trimmed(n@)
            } else {
                "manual"@
            },
            None => "manual"@,
        },
{
    match name {
        Some(n) => {
            let t = trim(n);
            if t.unicode_len() > 0 {
                t
            } else {
                String::from_str("manual")
            }
        },
        None => String::from_str("manual"),
    }
}

/// The System Settings address of a privacy pane; only the microphone and
/// screen-capture panes are opened.
pub fn privacy_settings_url(section: &str) -> (r: Option<String>)
    ensures
        (section@ == "Privacy_Microphone"@ || section@ == "Privacy_ScreenCapture"@) ==> (r matches Some(u) && u@
            == "x-apple.systempreferences:com.apple.preference.security?"@ + section@),
        !(section@ == "Privacy_Microphone"@ || section@ == "Privacy_ScreenCapture"@) ==> r.is_none(),
{
    if str_eq(section, "Privacy_Microphone") || str_eq(section, "Privacy_ScreenCapture") {
        let mut u = String::from_str("x-apple.systempreferences:com.apple.preference.security?");
        u.append(section);
        Some(u)
    } else {
        None
    }
}

/// The status left when a model download started from the settings ends.
pub fn model_download_state(result: Result<(), String>) -> (r: TranscriptionState)
    ensures
        match result {
            Ok(_) => r is Idle,
            Err(e) => r matches TranscriptionState::Failed { message } && message@
                == "model download: "@ + e@,
        },
{
    match result {
        Ok(_) => TranscriptionState::Idle,
        Err(e) => {
            let mut m = String::from_str("model download: ");
            m.append(e.as_str());
            TranscriptionState::Failed { message: m }
        },
    }
}

/// Strict lexicographic order on characters (which is the byte order of
/// their UTF-8 encodings).
pub open spec fn text_less(a: Seq<char>, b: Seq<char>) -> bool
    decreases a.len(),
{
    if a.len() == 0 {
        b.len() > 0
    } else if b.len() == 0 {
        false
    } else if a[0] != b[0] {
        a[0] < b[0]
    } else {
        text_less(a.drop_first(), b.drop_first())
    }
}

pub fn less_text(a: &str, b: &str) -> (r: bool)
    ensures
        r == text_less(a@, b@),
{
    let x = chars_of(a);
    let y = chars_of(b);
    let mut i: usize = 0;
    assert(a@.skip(0) =~= a@);
    assert(b@.skip(0) =~= b@);
    while i < x.len() && i < y.len() && x[i] == y[i]
        invariant
            i <= x.len(),
            i <= y.len(),
            x@ == a@,
            y@ == b@,
            text_less(a@, b@) == text_less(a@.skip(i as int), b@.skip(i as int)),
        decreases x.len() - i,
    {
        assert(a@.skip(i as int).drop_first() =~= a@.skip(i + 1));
        assert(b@.skip(i as int).drop_first() =~= b@.skip(i + 1));
        i += 1;
    }
    if i == x.len() {
        i < y.len()
    } else if i == y.len() {
        false
    } else {
        x[i] < y[i]
    }
}

pub struct EntryView {
    pub wav_path: Seq<char>,
    pub file_name: Seq<char>,
    pub has_transcript: bool,
    pub transcript_path: Option<Seq<char>>,
}

impl View for RecordingEntry {
    type V = EntryView;

    open spec fn view(&self) -> EntryView {
        EntryView {
            wav_path: self.wav_path@,
            file_name: self.file_name@,
            has_transcript: self.has_transcript,
            transcript_path: match self.transcript_path {
                Some(t) => Some(t@),
                None => None,
            },
        }
    }
}

pub open spec fn entry_of(p: Seq<char>, txt: bool) -> EntryView {
    EntryView {
        wav_path: p,
        file_name: match file_name(p) {
            Some(n) => n,
            None => "?"@,
        },
        has_transcript: txt,
        transcript_path: if txt {
            Some(with_extension(p, "txt"@))
        } else {
            None
        },
    }
}

/// The recordings among `paths`: those with a `wav` extension.
pub open spec fn wav_entries(paths: Seq<String>, txt: Seq<bool>) -> Seq<EntryView>
    decreases paths.len(),
{
    if paths.len() == 0 {
        Seq::empty()
    } else {
        let p = paths.last()@;
        wav_entries(paths.drop_last(), txt.take(paths.len() - 1)) + if extension(p) == Some(
            "wav"@,
        ) {
            seq![entry_of(p, txt[paths.len() - 1])]
        } else {
            Seq::<EntryView>::empty()
        }
    }
}

/// Inserts `x` after every entry whose name does not sort before it.
pub open spec fn insert_newest_first(sorted: Seq<EntryView>, x: EntryView) -> Seq<EntryView>
    decreases sorted.len(),
{
    if sorted.len() == 0 {
        seq![x]
    } else if !text_less(sorted.last().file_name, x.file_name) {
        sorted.push(x)
    } else {
        insert_newest_first(sorted.drop_last(), x).push(sorted.last())
    }
}

/// The stable sort by file name, last name first.
pub open spec fn newest_first(s: Seq<EntryView>) -> Seq<EntryView>
    decreases s.len(),
{
    if s.len() == 0 {
        Seq::empty()
    } else {
        insert_newest_first(newest_first(s.drop_last()), s.last())
    }
}

proof fn lemma_text_less_irreflexive(a: Seq<char>)
    ensures
        !text_less(a, a),
    decreases a.len(),
{
    if a.len() > 0 {
        lemma_text_less_irreflexive(a.drop_first());
    }
}

proof fn lemma_text_less_total(a: Seq<char>, b: Seq<char>)
    ensures
        a != b ==> text_less(a, b) || text_less(b, a),
        !(text_less(a, b) && text_less(b, a)),
    decreases a.len(),
{
    if a.len() > 0 && b.len() > 0 {
        lemma_text_less_total(a.drop_first(), b.drop_first());
        if a[0] == b[0] && a != b {
            assert(a.drop_first() != b.drop_first()) by {
                if a.drop_first() == b.drop_first() {
                    assert(a =~= seq![a[0]] + a.drop_first());
                    assert(b =~= seq![b[0]] + b.drop_first());
                }
            }
        }
    } else if a.len() == 0 && b.len() == 0 {
        assert(a =~= b);
    }
}

proof fn lemma_text_less_transitive(a: Seq<char>, b: Seq<char>, c: Seq<char>)
    requires
        text_less(a, b),
        text_less(b, c),
    ensures
        text_less(a, c),
    decreases a.len(),
{
    if a.len() > 0 && b.len() > 0 && c.len() > 0 {
        if a[0] == b[0] && b[0] == c[0] {
            lemma_text_less_transitive(a.drop_first(), b.drop_first(), c.drop_first());
        }
    }
}

/// Ordered from the last file name to the first.
pub open spec fn newest_name_first(s: Seq<EntryView>) -> bool {
    forall|i: int, j: int| 0 <= i < j < s.len() ==> !text_less(s[i].file_name, s[j].file_name)
}

proof fn lemma_not_less_transitive(a: Seq<char>, b: Seq<char>, c: Seq<char>)
    requires
        !text_less(a, b),
        !text_less(b, c),
    ensures
        !text_less(a, c),
{
    lemma_text_less_total(a, b);
    lemma_text_less_total(b, c);
    lemma_text_less_total(a, c);
    if text_less(a, c) {
        if a == b {
        } else if b == c {
        } else {
            lemma_text_less_transitive(c, b, a);
            lemma_text_less_total(a, c);
        }
    }
}

proof fn lemma_insert_newest_sorted(sorted: Seq<EntryView>, x: EntryView)
    requires
        newest_name_first(sorted),
    ensures
        newest_name_first(insert_newest_first(sorted, x)),
        insert_newest_first(sorted, x).len() == sorted.len() + 1,
        forall|k: int|
            0 <= k < insert_newest_first(sorted, x).len() ==> (#[trigger] insert_newest_first(
                sorted,
                x,
            )[k] == x || sorted.contains(insert_newest_first(sorted, x)[k])),
    decreases sorted.len(),
{
    if sorted.len() == 0 {
    } else if !text_less(sorted.last().file_name, x.file_name) {
        let r = sorted.push(x);
        assert forall|i: int, j: int| 0 <= i < j < r.len() implies !text_less(
            r[i].file_name,
            r[j].file_name,
        ) by {
            if j == sorted.len() {
                if i < sorted.len() - 1 {
                    lemma_not_less_transitive(
                        sorted[i].file_name,
                        sorted.last().file_name,
                        x.file_name,
                    );
                }
            }
        }
        assert forall|k: int| 0 <= k < r.len() implies (#[trigger] r[k] == x || sorted.contains(
            r[k],
        )) by {
            if k < sorted.len() {
                assert(r[k] == sorted[k]);
            }
        }
    } else {
        let d = sorted.drop_last();
        assert(newest_name_first(d));
        lemma_insert_newest_sorted(d, x);
        let r0 = insert_newest_first(d, x);
        let r = r0.push(sorted.last());
        let l = sorted.last();
        lemma_text_less_total(l.file_name, x.file_name);
        assert forall|i: int, j: int| 0 <= i < j < r.len() implies !text_less(
            r[i].file_name,
            r[j].file_name,
        ) by {
            if j == r.len() - 1 {
                assert(r[i] == r0[i]);
                if r0[i] == x {
                    lemma_text_less_total(x.file_name, l.file_name);
                } else {
                    assert(d.contains(r0[i]));
                    let q = choose|q: int| 0 <= q < d.len() && d[q] == r0[i];
                    assert(sorted[q] == d[q]);
                    assert(!text_less(sorted[q].file_name, sorted[sorted.len() - 1].file_name));
                }
            } else {
                assert(r[i] == r0[i] && r[j] == r0[j]);
            }
        }
        assert forall|k: int| 0 <= k < r.len() implies (#[trigger] r[k] == x || sorted.contains(
            r[k],
        )) by {
            if k < r0.len() {
                assert(r[k] == r0[k]);
                if r0[k] != x {
                    assert(d.contains(r0[k]));
                    let q = choose|q: int| 0 <= q < d.len() && d[q] == r0[k];
                    assert(sorted[q] == d[q]);
                }
            } else {
                assert(r[k] == sorted[sorted.len() - 1]);
            }
        }
    }
}

/// The listing comes newest name first.
pub proof fn lemma_listing_newest_first(s: Seq<EntryView>)
    ensures
        newest_name_first(newest_first(s)),
        newest_first(s).len() == s.len(),
    decreases s.len(),
{
    if s.len() > 0 {
        lemma_listing_newest_first(s.drop_last());
        lemma_insert_newest_sorted(newest_first(s.drop_last()), s.last());
    }
}

proof fn lemma_insert_newest_at(sorted: Seq<EntryView>, x: EntryView, pos: int)
    requires
        0 <= pos <= sorted.len(),
        pos > 0 ==> !text_less(sorted[pos - 1].file_name, x.file_name),
        forall|j: int| pos <= j < sorted.len() ==> text_less(sorted[j].file_name, x.file_name),
    ensures
        insert_newest_first(sorted, x) == sorted.insert(pos, x),
    decreases sorted.len(),
{
    if sorted.len() == 0 {
        assert(sorted.insert(pos, x) =~= seq![x]);
    } else if pos == sorted.len() {
        assert(sorted.insert(pos, x) =~= sorted.push(x));
    } else {
        let d = sorted.drop_last();
        lemma_insert_newest_at(d, x, pos);
        assert(sorted.insert(pos, x) =~= d.insert(pos, x).push(sorted.last()));
    }
}

fn make_entry(p: &String, txt: bool) -> (r: RecordingEntry)
    requires
        p@.len() < isize::MAX,
    ensures
        r@ == entry_of(p@, txt),
{
    let name = match path_file_name(p.as_str()) {
        Some(n) => n,
        None => String::from_str("?"),
    };
    let tp = if txt {
        Some(path_with_extension(p.as_str(), "txt"))
    } else {
        None
    };
    RecordingEntry { wav_path: p.clone(), file_name: name, has_transcript: txt, transcript_path: tp }
}

/// The recordings among the files of the output folder, newest name first.
/// `transcript_exists[i]` tells whether `paths[i]` has a `.txt` transcript
/// beside it.
pub fn list_recordings(paths: &Vec<String>, transcript_exists: &Vec<bool>) -> (r: Vec<
    RecordingEntry,
>)
    requires
        paths.len() == transcript_exists.len(),
        forall|i: int| 0 <= i < paths.len() ==> (#[trigger] paths@[i])@.len() < isize::MAX,
    ensures
        r@.map_values(|e: RecordingEntry| e@) == newest_first(wav_entries(paths@, transcript_exists@)),
{
    let ghost all = wav_entries(paths@, transcript_exists@);
    let ghost mut fed: Seq<EntryView> = Seq::empty();
    let mut out: Vec<RecordingEntry> = Vec::new();
    let mut i: usize = 0;
    while i < paths.len()
        invariant
            i <= paths.len(),
            paths.len() == transcript_exists.len(),
            forall|k: int| 0 <= k < paths.len() ==> (#[trigger] paths@[k])@.len() < isize::MAX,
            fed == wav_entries(paths@.take(i as int), transcript_exists@.take(i as int)),
            out@.map_values(|e: RecordingEntry| e@) == newest_first(fed),
        decreases paths.len() - i,
    {
        let p = &paths[i];
        let ext = path_extension(p.as_str());
        let is_wav = match &ext {
            Some(e) => str_eq(e.as_str(), "wav"),
            None => false,
        };
        proof {
            let ps = paths@.take(i + 1);
            assert(ps.drop_last() =~= paths@.take(i as int));
            assert(transcript_exists@.take(i + 1).take(i as int) =~= transcript_exists@.take(
                i as int,
            ));
            assert(ps.last() == paths@[i as int]);
            assert(is_wav == (extension(p@) == Some("wav"@)));
        }
        if is_wav {
            let x = make_entry(p, transcript_exists[i]);
            let ghost vs = out@.map_values(|e: RecordingEntry| e@);
            let mut pos: usize = out.len();
            while pos > 0 && less_text(out[pos - 1].file_name.as_str(), x.file_name.as_str())
                invariant
                    pos <= out.len(),
                    vs == out@.map_values(|e: RecordingEntry| e@),
                    forall|j: int| pos <= j < out.len() ==> text_less(vs[j].file_name, x@.file_name),
                decreases pos,
            {
                pos -= 1;
            }
            proof {
                lemma_insert_newest_at(vs, x@, pos as int);
                fed = fed.push(x@);
                assert(fed.drop_last() =~= wav_entries(paths@.take(i as int), transcript_exists@.take(i as int)));
            }
            out.insert(pos, x);
            assert(out@.map_values(|e: RecordingEntry| e@) =~= vs.insert(pos as int, x@));
            assert(fed == wav_entries(paths@.take(i + 1), transcript_exists@.take(i + 1)));
        } else {
            assert(wav_entries(paths@.take(i + 1), transcript_exists@.take(i + 1)) =~= fed);
        }
        i += 1;
    }
    assert(paths@.take(paths.len() as int) =~= paths@);
    assert(transcript_exists@.take(paths.len() as int) =~= transcript_exists@);
    out
}

/// The names are compared character by character: at the first position
/// where two names differ, the one with the smaller character sorts first,
/// whatever their lengths.
pub proof fn lemma_text_less_first_difference(a: Seq<char>, b: Seq<char>, k: int)
    requires
        0 <= k < a.len(),
        k < b.len(),
        a.take(k) == b.take(k),
        a[k] < b[k],
    ensures
        text_less(a, b),
        !text_less(b, a),
    decreases k,
{
    if k > 0 {
        assert(a[0] == a.take(k)[0] && b[0] == b.take(k)[0]);
        assert(a.drop_first().take(k - 1) =~= b.drop_first().take(k - 1)) by {
            assert forall|i: int| 0 <= i < k - 1 implies a.drop_first()[i] == b.drop_first()[i] by {
                assert(a.take(k)[i + 1] == a[i + 1]);
                assert(b.take(k)[i + 1] == b[i + 1]);
                assert(a.take(k)[i + 1] == b.take(k)[i + 1]);
                assert(a.drop_first()[i] == a[i + 1]);
                assert(b.drop_first()[i] == b[i + 1]);
            }
        }
        lemma_text_less_first_difference(a.drop_first(), b.drop_first(), k - 1);
    }
}

/// A name that is a proper beginning of another sorts before it.
pub proof fn lemma_text_less_proper_prefix(a: Seq<char>, b: Seq<char>)
    requires
        a.len() < b.len(),
        b.take(a.len() as int) == a,
    ensures
        text_less(a, b),
        !text_less(b, a),
    decreases a.len(),
{
    if a.len() > 0 {
        assert(a[0] == b.take(a.len() as int)[0]);
        assert(b.drop_first().take(a.drop_first().len() as int) =~= a.drop_first()) by {
            assert forall|i: int| 0 <= i < a.len() - 1 implies b.drop_first()[i] == a.drop_first()[
                i] by {
                assert(b.take(a.len() as int)[i + 1] == a[i + 1]);
            }
        }
        lemma_text_less_proper_prefix(a.drop_first(), b.drop_first());
    }
}

proof fn lemma_insert_newest_multiset(sorted: Seq<EntryView>, x: EntryView)
    ensures
        insert_newest_first(sorted, x).to_multiset() == sorted.to_multiset().insert(x),
    decreases sorted.len(),
{
    broadcast use vstd::seq_lib::group_to_multiset_ensures;

    if sorted.len() == 0 {
        assert(sorted.to_multiset() =~= Multiset::<EntryView>::empty());
    } else if !text_less(sorted.last().file_name, x.file_name) {
    } else {
        lemma_insert_newest_multiset(sorted.drop_last(), x);
        assert(sorted =~= sorted.drop_last().push(sorted.last()));
        assert(insert_newest_first(sorted, x).to_multiset() =~= sorted.to_multiset().insert(x));
    }
}

/// The listing holds exactly the recordings it was given, each as often as
/// it was given, reordered only.
pub proof fn lemma_listing_is_permutation(s: Seq<EntryView>)
    ensures
        newest_first(s).to_multiset() == s.to_multiset(),
    decreases s.len(),
{
    broadcast use vstd::seq_lib::group_to_multiset_ensures;

    if s.len() == 0 {
        assert(newest_first(s).to_multiset() =~= Multiset::<EntryView>::empty());
        assert(s.to_multiset() =~= Multiset::<EntryView>::empty());
    } else {
        lemma_listing_is_permutation(s.drop_last());
        lemma_insert_newest_multiset(newest_first(s.drop_last()), s.last());
        assert(s =~= s.drop_last().push(s.last()));
    }
}

} // verus!
