//! Two-channel transcripts: labelling, merging by time, rendering, and the
//! status a transcription job reports.
use vstd::multiset::Multiset;
use vstd::prelude::*;

use crate::paths::{path_with_extension, with_extension};
use crate::text::{contains_seq, decimal, push_char, push_decimal, str_contains, trim, trimmed};
use crate::transcribe::{Segment, SegmentView};

verus! {

/// The sample rate the recogniser expects.
pub const TARGET_SR: u32 = 16_000;

#[derive(Clone, Copy, PartialEq, Eq, Structural, Debug)]
pub enum Speaker {
    /// Microphone: what the local user said.
    You,
    /// System audio: the other participants.
    Them,
}

pub open spec fn speaker_label(s: Speaker) -> Seq<char> {
    match s {
        Speaker::You => "You"@,
        Speaker::Them => "Them"@,
    }
}

impl Speaker {
    pub fn label(&self) -> (r: &'static str)
        ensures
            r@ == speaker_label(*self),
    {
        match self {
            Speaker::You => "You",
            Speaker::Them => "Them",
        }
    }
}

pub struct LabelledSegment {
    pub speaker: Speaker,
    pub start_ms: i64,
    pub end_ms: i64,
    pub text: String,
}

pub struct LabelledView {
    pub speaker: Speaker,
    pub start_ms: i64,
    pub end_ms: i64,
    pub text: Seq<char>,
}

impl View for LabelledSegment {
    type V = LabelledView;

    open spec fn view(&self) -> LabelledView {
        LabelledView {
            speaker: self.speaker,
            start_ms: self.start_ms,
            end_ms: self.end_ms,
            text: self.text@,
        }
    }
}

/// The transcript written beside a recording as JSON.
pub struct TranscriptDocument {
    pub source_wav: String,
    pub model: String,
    pub segments: Vec<LabelledSegment>,
}

/// What the current transcription job is doing.
pub enum TranscriptionState {
    Idle,
    DownloadingModel { model: String, done_bytes: u64, total_bytes: u64 },
    LoadingModel,
    Transcribing { progress_pct: u8 },
    Cancelled,
    Done { transcript_path: String },
    Failed { message: String },
}

impl TranscriptionState {
    /// Whether a job is under way (the tray shows it).
    pub open spec fn active(&self) -> bool {
        match self {
            TranscriptionState::DownloadingModel { .. } => true,
            TranscriptionState::LoadingModel => true,
            TranscriptionState::Transcribing { .. } => true,
            _ => false,
        }
    }

    pub fn is_active(&self) -> (r: bool)
        ensures
            r == self.active(),
    {
        match self {
            TranscriptionState::DownloadingModel { .. } => true,
            TranscriptionState::LoadingModel => true,
            TranscriptionState::Transcribing { .. } => true,
            _ => false,
        }
    }
}

/// A job is running exactly while it downloads the model, loads it or
/// transcribes; an idle job, and one that is done, failed or was cancelled,
/// is not running.
pub proof fn lemma_active_while_running(st: TranscriptionState)
    ensures
        st.active() <==> (st is DownloadingModel || st is LoadingModel || st is Transcribing),
        (st is Idle || st is Done || st is Failed || st is Cancelled) ==> !st.active(),
{
}

/// The message a job fails with when it is cancelled.
pub const CANCELLED_MESSAGE: &'static str = "transcription cancelled";

/// The status a finished job leaves: the transcript's path, or, for an
/// error, `Cancelled` when cancellation was asked for or the error says so,
/// and `Failed` with the error's message otherwise.
pub fn finish_state(result: Result<String, String>, cancel_requested: bool) -> (r:
    TranscriptionState)
    ensures
        match result {
            Ok(p) => r matches TranscriptionState::Done { transcript_path } && transcript_path@
                == p@,
            Err(m) => if cancel_requested || contains_seq(m@, "cancelled"@) {
                r is Cancelled
            } else {
                r matches TranscriptionState::Failed { message } && message@ == m@
            },
        },
{
    match result {
        Ok(p) => TranscriptionState::Done { transcript_path: p },
        Err(m) => {
            if cancel_requested || str_contains(m.as_str(), "cancelled") {
                TranscriptionState::Cancelled
            } else {
                TranscriptionState::Failed { message: m }
            }
        },
    }
}

pub open spec fn labelled_all(segs: Seq<SegmentView>, who: Speaker) -> Seq<LabelledView> {
    segs.map_values(
        |s: SegmentView| LabelledView { speaker: who, start_ms: s.start_ms, end_ms: s.end_ms, text: s.text },
    )
}

/// Inserts `x` after every element that does not start later than it.
pub open spec fn insert_by_start(sorted: Seq<LabelledView>, x: LabelledView) -> Seq<LabelledView>
    decreases sorted.len(),
{
    if sorted.len() == 0 {
        seq![x]
    } else if sorted.last().start_ms <= x.start_ms {
        sorted.push(x)
    } else {
        insert_by_start(sorted.drop_last(), x).push(sorted.last())
    }
}

/// The stable sort by start time.
pub open spec fn sort_by_start(s: Seq<LabelledView>) -> Seq<LabelledView>
    decreases s.len(),
{
    if s.len() == 0 {
        Seq::empty()
    } else {
        insert_by_start(sort_by_start(s.drop_last()), s.last())
    }
}

/// Microphone segments labelled `You`, then system segments labelled
/// `Them`, sorted by start time; each segment goes after every earlier one
/// that does not start later, so equal start times keep that order.
pub open spec fn merged(mic: Seq<SegmentView>, sys: Seq<SegmentView>) -> Seq<LabelledView> {
    sort_by_start(labelled_all(mic, Speaker::You) + labelled_all(sys, Speaker::Them))
}

pub open spec fn sorted_by_start(s: Seq<LabelledView>) -> bool {
    forall|i: int, j: int| 0 <= i <= j < s.len() ==> s[i].start_ms <= s[j].start_ms
}

proof fn lemma_insert_by_start(sorted: Seq<LabelledView>, x: LabelledView)
    ensures
        insert_by_start(sorted, x).to_multiset() == sorted.to_multiset().insert(x),
        insert_by_start(sorted, x).len() == sorted.len() + 1,
        sorted_by_start(sorted) ==> sorted_by_start(insert_by_start(sorted, x)),
        forall|k: int|
            0 <= k < insert_by_start(sorted, x).len() ==> (#[trigger] insert_by_start(sorted, x)[k]
                == x || sorted.contains(insert_by_start(sorted, x)[k])),
    decreases sorted.len(),
{
    broadcast use vstd::seq_lib::group_to_multiset_ensures;

    if sorted.len() == 0 {
        assert(seq![x] =~= Seq::<LabelledView>::empty().push(x));
    } else if sorted.last().start_ms <= x.start_ms {
    } else {
        let d = sorted.drop_last();
        lemma_insert_by_start(d, x);
        assert(sorted =~= d.push(sorted.last()));
        let r = insert_by_start(d, x);
        assert(r.push(sorted.last()).to_multiset() =~= r.to_multiset().insert(sorted.last()));
        assert(sorted.to_multiset() =~= d.to_multiset().insert(sorted.last()));
        if sorted_by_start(sorted) {
            assert(sorted_by_start(d));
            assert forall|k: int| 0 <= k < r.len() implies r[k].start_ms <= sorted.last().start_ms by {
                if r[k] != x {
                    assert(d.contains(r[k]));
                    let q = choose|q: int| 0 <= q < d.len() && d[q] == r[k];
                    assert(sorted[q] == d[q]);
                }
            }
        }
        assert forall|k: int|
            0 <= k < insert_by_start(sorted, x).len() implies (#[trigger] insert_by_start(
            sorted,
            x,
        )[k] == x || sorted.contains(insert_by_start(sorted, x)[k])) by {
            let full = insert_by_start(sorted, x);
            if k < r.len() {
                if r[k] != x {
                    assert(d.contains(r[k]));
                    let q = choose|q: int| 0 <= q < d.len() && d[q] == r[k];
                    assert(sorted[q] == d[q]);
                }
            } else {
                assert(full[k] == sorted[sorted.len() - 1]);
            }
        }
    }
}

/// Sorting by start time gives a sequence ordered by start time holding
/// exactly the segments it was given.
pub proof fn lemma_sort_by_start(s: Seq<LabelledView>)
    ensures
        sorted_by_start(sort_by_start(s)),
        sort_by_start(s).to_multiset() == s.to_multiset(),
        sort_by_start(s).len() == s.len(),
    decreases s.len(),
{
    broadcast use vstd::seq_lib::group_to_multiset_ensures;

    if s.len() > 0 {
        lemma_sort_by_start(s.drop_last());
        lemma_insert_by_start(sort_by_start(s.drop_last()), s.last());
        assert(s =~= s.drop_last().push(s.last()));
    } else {
        assert(s.to_multiset() =~= Multiset::<LabelledView>::empty());
        assert(sort_by_start(s).to_multiset() =~= Multiset::<LabelledView>::empty());
    }
}

/// The merged transcript is ordered by start time and holds every
/// microphone segment, labelled `You`, and every system segment, labelled
/// `Them`, and nothing else.
pub proof fn lemma_merged_is_sorted_permutation(mic: Seq<SegmentView>, sys: Seq<SegmentView>)
    ensures
        sorted_by_start(merged(mic, sys)),
        merged(mic, sys).to_multiset() == (labelled_all(mic, Speaker::You) + labelled_all(
            sys,
            Speaker::Them,
        )).to_multiset(),
        merged(mic, sys).len() == mic.len() + sys.len(),
{
    lemma_sort_by_start(labelled_all(mic, Speaker::You) + labelled_all(sys, Speaker::Them));
}

/// Labelling keeps each segment as it was: the `i`-th labelled segment has
/// the speaker given and the start, end and text of the `i`-th segment.
pub proof fn lemma_labelling_keeps_segments(segs: Seq<SegmentView>, who: Speaker)
    ensures
        labelled_all(segs, who).len() == segs.len(),
        forall|i: int|
            0 <= i < segs.len() ==> {
                let l = #[trigger] labelled_all(segs, who)[i];
                &&& l.speaker == who
                &&& l.start_ms == segs[i].start_ms
                &&& l.end_ms == segs[i].end_ms
                &&& l.text == segs[i].text
            },
{
}

/// Every merged segment is an input segment with its own start, end and
/// text: a `You` segment is one of the microphone's, a `Them` segment one of
/// the system's; and every input segment is in the merged transcript under
/// its speaker, with its own times.
pub proof fn lemma_merged_segments_are_inputs(mic: Seq<SegmentView>, sys: Seq<SegmentView>)
    ensures
        forall|k: int|
            0 <= k < merged(mic, sys).len() ==> {
                let m = #[trigger] merged(mic, sys)[k];
                ||| m.speaker == Speaker::You && exists|j: int|
                    0 <= j < mic.len() && mic[j].start_ms == m.start_ms && mic[j].end_ms
                        == m.end_ms && mic[j].text == m.text
                ||| m.speaker == Speaker::Them && exists|j: int|
                    0 <= j < sys.len() && sys[j].start_ms == m.start_ms && sys[j].end_ms
                        == m.end_ms && sys[j].text == m.text
            },
        forall|j: int|
            0 <= j < mic.len() ==> merged(mic, sys).contains(
                LabelledView {
                    speaker: Speaker::You,
                    start_ms: #[trigger] mic[j].start_ms,
                    end_ms: mic[j].end_ms,
                    text: mic[j].text,
                },
            ),
        forall|j: int|
            0 <= j < sys.len() ==> merged(mic, sys).contains(
                LabelledView {
                    speaker: Speaker::Them,
                    start_ms: #[trigger] sys[j].start_ms,
                    end_ms: sys[j].end_ms,
                    text: sys[j].text,
                },
            ),
{
    broadcast use vstd::seq_lib::group_to_multiset_ensures;

    let a = labelled_all(mic, Speaker::You);
    let b = labelled_all(sys, Speaker::Them);
    let all = a + b;
    lemma_sort_members(all);
    lemma_sort_by_start(all);
    let out = merged(mic, sys);
    assert forall|k: int| 0 <= k < out.len() implies {
        let m = #[trigger] out[k];
        ||| m.speaker == Speaker::You && exists|j: int|
            0 <= j < mic.len() && mic[j].start_ms == m.start_ms && mic[j].end_ms == m.end_ms
                && mic[j].text == m.text
        ||| m.speaker == Speaker::Them && exists|j: int|
            0 <= j < sys.len() && sys[j].start_ms == m.start_ms && sys[j].end_ms == m.end_ms
                && sys[j].text == m.text
    } by {
        assert(all.contains(out[k]));
        let w = choose|w: int| 0 <= w < all.len() && all[w] == out[k];
        if w < a.len() {
            assert(all[w] == a[w]);
        } else {
            assert(all[w] == b[w - a.len()]);
        }
    }
    assert forall|j: int| 0 <= j < mic.len() implies out.contains(
        LabelledView {
            speaker: Speaker::You,
            start_ms: #[trigger] mic[j].start_ms,
            end_ms: mic[j].end_ms,
            text: mic[j].text,
        },
    ) by {
        assert(all[j] == a[j]);
        assert(all.contains(all[j]));
        assert(out.to_multiset().count(all[j]) > 0);
    }
    assert forall|j: int| 0 <= j < sys.len() implies out.contains(
        LabelledView {
            speaker: Speaker::Them,
            start_ms: #[trigger] sys[j].start_ms,
            end_ms: sys[j].end_ms,
            text: sys[j].text,
        },
    ) by {
        assert(all[a.len() + j] == b[j]);
        assert(all.contains(all[a.len() + j]));
        assert(out.to_multiset().count(all[a.len() + j]) > 0);
    }
}

/// At equal start times, no system segment comes before a microphone
/// segment.
pub open spec fn mic_first_at_ties(s: Seq<LabelledView>) -> bool {
    forall|i: int, j: int|
        0 <= i < j < s.len() && s[i].start_ms == s[j].start_ms && #[trigger] s[i].speaker
            == Speaker::Them ==> #[trigger] s[j].speaker == Speaker::Them
}

proof fn lemma_sort_members(s: Seq<LabelledView>)
    ensures
        forall|k: int| 0 <= k < sort_by_start(s).len() ==> s.contains(#[trigger] sort_by_start(s)[k]),
        sort_by_start(s).len() == s.len(),
    decreases s.len(),
{
    if s.len() > 0 {
        let d = s.drop_last();
        lemma_sort_members(d);
        lemma_insert_by_start(sort_by_start(d), s.last());
        let r = sort_by_start(s);
        assert forall|k: int| 0 <= k < r.len() implies s.contains(#[trigger] r[k]) by {
            if r[k] == s.last() {
                assert(s[s.len() - 1] == r[k]);
            } else {
                assert(sort_by_start(d).contains(r[k]));
                let q = choose|q: int| 0 <= q < sort_by_start(d).len() && sort_by_start(d)[q] == r[k];
                assert(d.contains(sort_by_start(d)[q]));
                let w = choose|w: int| 0 <= w < d.len() && d[w] == sort_by_start(d)[q];
                assert(s[w] == d[w]);
            }
        }
    }
}

proof fn lemma_insert_them_keeps_order(s: Seq<LabelledView>, x: LabelledView)
    requires
        sorted_by_start(s),
        mic_first_at_ties(s),
        x.speaker == Speaker::Them,
    ensures
        mic_first_at_ties(insert_by_start(s, x)),
    decreases s.len(),
{
    if s.len() == 0 {
    } else if s.last().start_ms <= x.start_ms {
        let r = s.push(x);
        assert forall|i: int, j: int|
            0 <= i < j < r.len() && r[i].start_ms == r[j].start_ms && #[trigger] r[i].speaker
                == Speaker::Them implies #[trigger] r[j].speaker == Speaker::Them by {
            if j < s.len() {
                assert(r[i] == s[i] && r[j] == s[j]);
            }
        }
    } else {
        let d = s.drop_last();
        assert(sorted_by_start(d));
        assert(mic_first_at_ties(d)) by {
            assert forall|i: int, j: int|
                0 <= i < j < d.len() && d[i].start_ms == d[j].start_ms && #[trigger] d[i].speaker
                    == Speaker::Them implies #[trigger] d[j].speaker == Speaker::Them by {
                assert(d[i] == s[i] && d[j] == s[j]);
            }
        }
        lemma_insert_them_keeps_order(d, x);
        lemma_insert_by_start(d, x);
        let r0 = insert_by_start(d, x);
        let r = r0.push(s.last());
        assert forall|i: int, j: int|
            0 <= i < j < r.len() && r[i].start_ms == r[j].start_ms && #[trigger] r[i].speaker
                == Speaker::Them implies #[trigger] r[j].speaker == Speaker::Them by {
            if j < r0.len() {
                assert(r[i] == r0[i] && r[j] == r0[j]);
            } else {
                assert(r[j] == s.last());
                assert(r[i] == r0[i]);
                if r0[i] != x {
                    assert(d.contains(r0[i]));
                    let q = choose|q: int| 0 <= q < d.len() && d[q] == r0[i];
                    assert(s[q] == r0[i]);
                    assert(s[s.len() - 1] == s.last());
                }
            }
        }
    }
}

proof fn lemma_sort_you_then_them(a: Seq<LabelledView>, b: Seq<LabelledView>)
    requires
        forall|k: int| 0 <= k < a.len() ==> (#[trigger] a[k]).speaker == Speaker::You,
        forall|k: int| 0 <= k < b.len() ==> (#[trigger] b[k]).speaker == Speaker::Them,
    ensures
        mic_first_at_ties(sort_by_start(a + b)),
    decreases b.len(),
{
    if b.len() == 0 {
        assert(a + b =~= a);
        lemma_sort_members(a);
        let r = sort_by_start(a);
        assert forall|i: int, j: int|
            0 <= i < j < r.len() && r[i].start_ms == r[j].start_ms && #[trigger] r[i].speaker
                == Speaker::Them implies #[trigger] r[j].speaker == Speaker::Them by {
            assert(a.contains(r[i]));
            let q = choose|q: int| 0 <= q < a.len() && a[q] == r[i];
            assert(a[q].speaker == Speaker::You);
        }
    } else {
        let b0 = b.drop_last();
        assert forall|k: int| 0 <= k < b0.len() implies (#[trigger] b0[k]).speaker == Speaker::Them by {
            assert(b0[k] == b[k]);
        }
        lemma_sort_you_then_them(a, b0);
        assert((a + b).drop_last() =~= a + b0);
        assert((a + b).last() == b[b.len() - 1]);
        lemma_sort_by_start(a + b0);
        lemma_insert_them_keeps_order(sort_by_start(a + b0), b[b.len() - 1]);
    }
}

/// At equal start times the merged transcript puts microphone segments
/// before system ones.
pub proof fn lemma_merged_mic_first(mic: Seq<SegmentView>, sys: Seq<SegmentView>)
    ensures
        mic_first_at_ties(merged(mic, sys)),
{
    lemma_sort_you_then_them(labelled_all(mic, Speaker::You), labelled_all(sys, Speaker::Them));
}

fn label_one(s: &Segment, who: Speaker) -> (r: LabelledSegment)
    ensures
        r@ == (LabelledView {
            speaker: who,
            start_ms: s.start_ms,
            end_ms: s.end_ms,
            text: s.text@,
        }),
{
    LabelledSegment { speaker: who, start_ms: s.start_ms, end_ms: s.end_ms, text: s.text.clone() }
}

proof fn lemma_insert_at(sorted: Seq<LabelledView>, x: LabelledView, pos: int)
    requires
        0 <= pos <= sorted.len(),
        pos > 0 ==> sorted[pos - 1].start_ms <= x.start_ms,
        forall|j: int| pos <= j < sorted.len() ==> sorted[j].start_ms > x.start_ms,
    ensures
        insert_by_start(sorted, x) == sorted.insert(pos, x),
    decreases sorted.len(),
{
    if sorted.len() == 0 {
        assert(sorted.insert(pos, x) =~= seq![x]);
    } else if pos == sorted.len() {
        assert(sorted.insert(pos, x) =~= sorted.push(x));
    } else {
        let d = sorted.drop_last();
        lemma_insert_at(d, x, pos);
        assert(sorted.insert(pos, x) =~= d.insert(pos, x).push(sorted.last()));
    }
}

fn insert_sorted_exec(out: &mut Vec<LabelledSegment>, x: LabelledSegment)
    ensures
        final(out)@.map_values(|l: LabelledSegment| l@) == insert_by_start(
            old(out)@.map_values(|l: LabelledSegment| l@),
            x@,
        ),
{
    let ghost vs = out@.map_values(|l: LabelledSegment| l@);
    let mut pos: usize = out.len();
    while pos > 0 && out[pos - 1].start_ms > x.start_ms
        invariant
            pos <= out.len(),
            vs == out@.map_values(|l: LabelledSegment| l@),
            forall|j: int| pos <= j < out.len() ==> vs[j].start_ms > x.start_ms,
        decreases pos,
    {
        pos -= 1;
    }
    proof {
        lemma_insert_at(vs, x@, pos as int);
    }
    let ghost before = out@;
    out.insert(pos, x);
    assert(out@.map_values(|l: LabelledSegment| l@) =~= vs.insert(pos as int, x@));
}

/// Labels microphone segments `You` and system segments `Them`, and orders
/// them by start time, keeping microphone before system at equal times.
pub fn merge_segments(mic: &Vec<Segment>, sys: &Vec<Segment>) -> (out: Vec<LabelledSegment>)
    ensures
        out@.map_values(|l: LabelledSegment| l@) == merged(
            mic@.map_values(|s: Segment| s@),
            sys@.map_values(|s: Segment| s@),
        ),
{
    let ghost all = labelled_all(mic@.map_values(|s: Segment| s@), Speaker::You) + labelled_all(
        sys@.map_values(|s: Segment| s@),
        Speaker::Them,
    );
    let ghost nm = mic.len();
    let mut out: Vec<LabelledSegment> = Vec::new();
    let mut i: usize = 0;
    while i < mic.len()
        invariant
            i <= mic.len(),
            nm == mic.len(),
            all == labelled_all(mic@.map_values(|s: Segment| s@), Speaker::You) + labelled_all(
                sys@.map_values(|s: Segment| s@),
                Speaker::Them,
            ),
            out@.map_values(|l: LabelledSegment| l@) == sort_by_start(all.take(i as int)),
        decreases mic.len() - i,
    {
        let x = label_one(&mic[i], Speaker::You);
        assert(all.take(i + 1).drop_last() =~= all.take(i as int));
        assert(all.take(i + 1).last() == x@);
        insert_sorted_exec(&mut out, x);
        i += 1;
    }
    let mut k: usize = 0;
    while k < sys.len()
        invariant
            k <= sys.len(),
            nm == mic.len(),
            all == labelled_all(mic@.map_values(|s: Segment| s@), Speaker::You) + labelled_all(
                sys@.map_values(|s: Segment| s@),
                Speaker::Them,
            ),
            out@.map_values(|l: LabelledSegment| l@) == sort_by_start(all.take(nm + k)),
        decreases sys.len() - k,
    {
        let x = label_one(&sys[k], Speaker::Them);
        assert(all.take(nm + k + 1).drop_last() =~= all.take(nm + k));
        assert(all.take(nm + k + 1).last() == x@);
        insert_sorted_exec(&mut out, x);
        k += 1;
    }
    assert(all.take(nm + sys.len()) =~= all);
    out
}

/// A two-digit (or longer) zero-padded number.
pub open spec fn pad2(n: nat) -> Seq<char> {
    if n < 10 {
        seq!['0'] + decimal(n)
    } else {
        decimal(n)
    }
}

/// Whole seconds in `ms` milliseconds; negative times count as zero.
pub open spec fn whole_seconds(ms: i64) -> nat {
    if ms >= 0 {
        (ms / 1000) as nat
    } else {
        0
    }
}

/// `MM:SS`, or `HH:MM:SS` from one hour on.
pub open spec fn timestamp_of(ms: i64) -> Seq<char> {
    let t = whole_seconds(ms);
    let h = t / 3600;
    let m = (t % 3600) / 60;
    let s = t % 60;
    if h > 0 {
        pad2(h) + ":"@ + pad2(m) + ":"@ + pad2(s)
    } else {
        pad2(m) + ":"@ + pad2(s)
    }
}

fn push_pad2(out: &mut String, n: u64)
    ensures
        final(out)@ == old(out)@ + pad2(n as nat),
{
    if n < 10 {
        push_char(out, '0');
    }
    push_decimal(out, n);
    assert(out@ =~= old(out)@ + pad2(n as nat));
}

/// Formats a time in milliseconds as `MM:SS`, or `HH:MM:SS` from one hour
/// on.
pub fn format_timestamp(ms: i64) -> (r: String)
    ensures
        r@ == timestamp_of(ms),
{
    let t: u64 = if ms >= 0 {
        (ms / 1000) as u64
    } else {
        0
    };
    let h = t / 3600;
    let m = (t % 3600) / 60;
    let s = t % 60;
    let mut out = String::new();
    if h > 0 {
        push_pad2(&mut out, h);
        out.append(":");
    }
    push_pad2(&mut out, m);
    out.append(":");
    push_pad2(&mut out, s);
    proof {
        if h > 0 {
            assert(out@ =~= pad2(h as nat) + ":"@ + pad2(m as nat) + ":"@ + pad2(s as nat));
        } else {
            assert(out@ =~= pad2(m as nat) + ":"@ + pad2(s as nat));
        }
    }
    out
}

/// One segment of the readable transcript.
pub open spec fn segment_block(seg: LabelledView) -> Seq<char> {
    "**["@ + timestamp_of(seg.start_ms) + "] "@ + speaker_label(seg.speaker) + ":** "@ + trimmed(
        seg.text,
    ) + "\n\n"@
}

pub open spec fn blocks(segs: Seq<LabelledView>) -> Seq<char>
    decreases segs.len(),
{
    if segs.len() == 0 {
        Seq::empty()
    } else {
        blocks(segs.drop_last()) + segment_block(segs.last())
    }
}

/// The readable transcript: a heading, then each segment as
/// `**[time] Speaker:** text`, or a note that nothing was said.
pub open spec fn markdown_of(segs: Seq<LabelledView>) -> Seq<char> {
    if segs.len() == 0 {
        "# Transcript\n\n"@ + "_No speech detected._\n"@
    } else {
        "# Transcript\n\n"@ + blocks(segs)
    }
}

/// Renders the readable transcript.
pub fn render_markdown(segments: &Vec<LabelledSegment>) -> (r: String)
    ensures
        r@ == markdown_of(segments@.map_values(|l: LabelledSegment| l@)),
{
    let ghost segs = segments@.map_values(|l: LabelledSegment| l@);
    let mut s = String::from_str("# Transcript\n\n");
    if segments.len() == 0 {
        s.append("_No speech detected._\n");
        return s;
    }
    let ghost head = s@;
    let mut i: usize = 0;
    while i < segments.len()
        invariant
            i <= segments.len(),
            segs == segments@.map_values(|l: LabelledSegment| l@),
            s@ == head + blocks(segs.take(i as int)),
        decreases segments.len() - i,
    {
        let seg = &segments[i];
        let ghost before = s@;
        s.append("**[");
        let stamp = format_timestamp(seg.start_ms);
        s.append(stamp.as_str());
        s.append("] ");
        s.append(seg.speaker.label());
        s.append(":** ");
        let t = trim(seg.text.as_str());
        s.append(t.as_str());
        s.append("\n\n");
        proof {
            assert(segs.take(i + 1).drop_last() =~= segs.take(i as int));
            assert(segs.take(i + 1).last() == seg@);
            assert(s@ =~= before + segment_block(seg@));
        }
        i += 1;
    }
    assert(segs.take(segments.len() as int) =~= segs);
    s
}

/// One channel of interleaved audio: the sample at offset `which` of every
/// complete frame.
pub open spec fn channel_of<T>(x: Seq<T>, channels: nat, which: nat) -> Seq<T> {
    Seq::new(x.len() / channels, |f: int| x[f * channels + which])
}

/// Splits interleaved audio into its first two channels (microphone and
/// system). A single-channel recording is all microphone.
pub fn split_channels<T: Copy>(interleaved: &Vec<T>, channels: usize) -> (r: Result<
    (Vec<T>, Vec<T>),
    String,
>)
    ensures
        channels == 0 <==> r is Err,
        r matches Err(m) ==> m@ == "WAV has no channels"@,
        channels == 1 ==> (r matches Ok((mic, sys)) && mic@ == interleaved@ && sys@.len() == 0),
        channels >= 2 ==> (r matches Ok((mic, sys)) && mic@ == channel_of(
            interleaved@,
            channels as nat,
            0,
        ) && sys@ == channel_of(interleaved@, channels as nat, 1)),
{
    if channels == 0 {
        return Err(String::from_str("WAV has no channels"));
    }
    if channels == 1 {
        let mut all: Vec<T> = Vec::new();
        let mut i: usize = 0;
        while i < interleaved.len()
            invariant
                i <= interleaved.len(),
                all@ == interleaved@.take(i as int),
            decreases interleaved.len() - i,
        {
            all.push(interleaved[i]);
            i += 1;
            assert(all@ =~= interleaved@.take(i as int));
        }
        assert(interleaved@.take(interleaved.len() as int) =~= interleaved@);
        return Ok((all, Vec::new()));
    }
    let frames = interleaved.len() / channels;
    let mut mic: Vec<T> = Vec::new();
    let mut sys: Vec<T> = Vec::new();
    let mut f: usize = 0;
    while f < frames
        invariant
            channels >= 2,
            frames == interleaved.len() / channels,
            f <= frames,
            mic@ == Seq::new(f as nat, |g: int| interleaved@[g * channels]),
            sys@ == Seq::new(f as nat, |g: int| interleaved@[g * channels + 1]),
        decreases frames - f,
    {
        assert(f * channels + channels <= interleaved.len()) by (nonlinear_arith)
            requires
                f < frames,
                frames == interleaved.len() / channels,
                channels >= 2,
        ;
        mic.push(interleaved[f * channels]);
        sys.push(interleaved[f * channels + 1]);
        f += 1;
        assert(mic@ =~= Seq::new(f as nat, |g: int| interleaved@[g * channels]));
        assert(sys@ =~= Seq::new(f as nat, |g: int| interleaved@[g * channels + 1]));
    }
    Ok((mic, sys))
}

/// The readable (`.txt`) and structured (`.json`) transcripts written
/// beside a recording.
pub fn transcript_paths(wav: &str) -> (r: (String, String))
    requires
        wav@.len() < isize::MAX,
    ensures
        r.0@ == with_extension(wav@, "txt"@),
        r.1@ == with_extension(wav@, "json"@),
{
    (path_with_extension(wav, "txt"), path_with_extension(wav, "json"))
}

} // verus!
