//! Turning what the speech recogniser reports into timed segments.
use vstd::prelude::*;

use crate::text::{trim, trimmed};

verus! {

/// A stretch of recognised speech.
pub struct Segment {
    /// Start time in milliseconds.
    pub start_ms: i64,
    /// End time in milliseconds.
    pub end_ms: i64,
    pub text: String,
}

pub struct SegmentView {
    pub start_ms: i64,
    pub end_ms: i64,
    pub text: Seq<char>,
}

impl View for Segment {
    type V = SegmentView;

    open spec fn view(&self) -> SegmentView {
        SegmentView { start_ms: self.start_ms, end_ms: self.end_ms, text: self.text@ }
    }
}

/// What the recogniser reports for one segment: its text and its start and
/// end in centiseconds, each of which it may fail to give.
pub struct RawSegment {
    pub text: String,
    pub t0: Option<i64>,
    pub t1: Option<i64>,
}

pub open spec fn centis_ok(t: Option<i64>) -> bool {
    match t {
        Some(v) => -922337203685477580 <= v <= 922337203685477580,
        None => true,
    }
}

/// Milliseconds for a time in centiseconds; a missing time counts as 0.
pub open spec fn millis_of(t: Option<i64>) -> i64 {
    match t {
        Some(v) => (v * 10) as i64,
        None => 0,
    }
}

/// The segments kept from the recogniser's output: text trimmed, empty
/// ones dropped, times in milliseconds.
pub open spec fn collected(raw: Seq<RawSegment>) -> Seq<SegmentView>
    decreases raw.len(),
{
    if raw.len() == 0 {
        Seq::empty()
    } else {
        let r = raw.last();
        let t = trimmed(r.text@);
        collected(raw.drop_last()) + if t.len() == 0 {
            Seq::<SegmentView>::empty()
        } else {
            seq![SegmentView { start_ms: millis_of(r.t0), end_ms: millis_of(r.t1), text: t }]
        }
    }
}

fn millis(t: Option<i64>) -> (r: i64)
    requires
        centis_ok(t),
    ensures
        r == millis_of(t),
{
    match t {
        Some(v) => v * 10,
        None => 0,
    }
}

/// Keeps the segments with text, trimmed, with their times converted from
/// centiseconds to milliseconds.
pub fn collect_segments(raw: &Vec<RawSegment>) -> (out: Vec<Segment>)
    requires
        forall|i: int| 0 <= i < raw.len() ==> centis_ok(#[trigger] raw@[i].t0) && centis_ok(
            raw@[i].t1,
        ),
    ensures
        out@.map_values(|s: Segment| s@) == collected(raw@),
{
    let mut out: Vec<Segment> = Vec::new();
    let mut i: usize = 0;
    while i < raw.len()
        invariant
            i <= raw.len(),
            forall|k: int| 0 <= k < raw.len() ==> centis_ok(#[trigger] raw@[k].t0) && centis_ok(
                raw@[k].t1,
            ),
            out@.map_values(|s: Segment| s@) == collected(raw@.take(i as int)),
        decreases raw.len() - i,
    {
        let r = &raw[i];
        let text = trim(r.text.as_str());
        let ghost prev = out@;
        assert(raw@.take(i + 1).drop_last() =~= raw@.take(i as int));
        assert(raw@.take(i + 1).last() == raw@[i as int]);
        if text.unicode_len() > 0 {
            let seg = Segment { start_ms: millis(r.t0), end_ms: millis(r.t1), text };
            out.push(seg);
            assert(out@.map_values(|s: Segment| s@) =~= prev.map_values(|s: Segment| s@).push(
                seg@,
            ));
        } else {
            assert(collected(raw@.take(i + 1)) =~= collected(raw@.take(i as int)));
        }
        i += 1;
    }
    assert(raw@.take(raw.len() as int) =~= raw@);
    out
}

/// Threads given to the recogniser: one less than the available
/// parallelism (four when unknown), but at least two.
pub open spec fn thread_count_of(available: Option<usize>) -> i32 {
    let n: int = match available {
        Some(n) => n as int,
        None => 4,
    };
    let m = if n - 1 >= 2 { n - 1 } else { 2 };
    m as i32
}

pub fn thread_count(available: Option<usize>) -> (r: i32)
    ensures
        r == thread_count_of(available),
{
    let n = match available {
        Some(n) => n,
        None => 4,
    };
    let m = if n >= 3 {
        n - 1
    } else {
        2
    };
    m as i32
}

} // verus!
