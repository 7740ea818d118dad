//! Pairing of the microphone and system-audio streams into stereo frames.
//!
//! Samples arrive on both sides in chunks of any size. Each frame written
//! to the output holds one microphone sample (left) and one system sample
//! (right). While both inputs are open, only complete pairs are emitted; once
//! one side has closed, the other keeps being written and the missing side
//! is left empty (silence); once both have closed, everything queued is
//! written.
use vstd::prelude::*;

verus! {

/// One output frame: the left (microphone) and right (system) samples; an
/// empty side is written as silence.
pub type Frame<T> = (Option<T>, Option<T>);

pub struct MixerQueues<T> {
    mic: Vec<T>,
    sys: Vec<T>,
    mic_open: bool,
    sys_open: bool,
}

pub struct MixerView<T> {
    pub mic: Seq<T>,
    pub sys: Seq<T>,
    pub mic_open: bool,
    pub sys_open: bool,
}

impl<T> View for MixerQueues<T> {
    type V = MixerView<T>;

    closed spec fn view(&self) -> MixerView<T> {
        MixerView { mic: self.mic@, sys: self.sys@, mic_open: self.mic_open, sys_open: self.sys_open }
    }
}

/// What the mixer is told: a chunk on either side, or the end of either
/// side.
pub enum MixEvent<T> {
    Mic(Seq<T>),
    Sys(Seq<T>),
    MicClosed,
    SysClosed,
}

pub open spec fn min_nat(a: nat, b: nat) -> nat {
    if a <= b {
        a
    } else {
        b
    }
}

pub open spec fn max_nat(a: nat, b: nat) -> nat {
    if a >= b {
        a
    } else {
        b
    }
}

/// How many frames can be written now.
pub open spec fn frames_ready<T>(v: MixerView<T>) -> nat {
    if !v.mic_open && !v.sys_open {
        max_nat(v.mic.len(), v.sys.len())
    } else if !v.sys_open {
        v.mic.len()
    } else if !v.mic_open {
        v.sys.len()
    } else {
        min_nat(v.mic.len(), v.sys.len())
    }
}

pub open spec fn side_at<T>(s: Seq<T>, i: int) -> Option<T> {
    if 0 <= i < s.len() {
        Some(s[i])
    } else {
        None
    }
}

/// The frames written from the queues, and the queues afterwards.
pub open spec fn take_frames_spec<T>(v: MixerView<T>) -> (MixerView<T>, Seq<Frame<T>>) {
    let k = frames_ready(v);
    let frames = Seq::new(k, |i: int| (side_at(v.mic, i), side_at(v.sys, i)));
    let rest = MixerView {
        mic: v.mic.skip(min_nat(k, v.mic.len()) as int),
        sys: v.sys.skip(min_nat(k, v.sys.len()) as int),
        mic_open: v.mic_open,
        sys_open: v.sys_open,
    };
    (rest, frames)
}

pub open spec fn apply_event<T>(v: MixerView<T>, e: MixEvent<T>) -> MixerView<T> {
    match e {
        MixEvent::Mic(c) => MixerView { mic: v.mic + c, ..v },
        MixEvent::Sys(c) => MixerView { sys: v.sys + c, ..v },
        MixEvent::MicClosed => MixerView { mic_open: false, ..v },
        MixEvent::SysClosed => MixerView { sys_open: false, ..v },
    }
}

/// A mixer session: after each event, every frame that is ready is written.
pub open spec fn run_session<T>(start: MixerView<T>, events: Seq<MixEvent<T>>) -> (
    MixerView<T>,
    Seq<Frame<T>>,
)
    decreases events.len(),
{
    if events.len() == 0 {
        (start, Seq::empty())
    } else {
        let (v, out) = run_session(start, events.drop_last());
        let (v2, frames) = take_frames_spec(apply_event(v, events.last()));
        (v2, out + frames)
    }
}

/// The samples of the left side of `frames`, in order, silence left out.
pub open spec fn lefts<T>(frames: Seq<Frame<T>>) -> Seq<T>
    decreases frames.len(),
{
    if frames.len() == 0 {
        Seq::empty()
    } else {
        lefts(frames.drop_last()) + match frames.last().0 {
            Some(x) => seq![x],
            None => Seq::empty(),
        }
    }
}

pub open spec fn rights<T>(frames: Seq<Frame<T>>) -> Seq<T>
    decreases frames.len(),
{
    if frames.len() == 0 {
        Seq::empty()
    } else {
        rights(frames.drop_last()) + match frames.last().1 {
            Some(x) => seq![x],
            None => Seq::empty(),
        }
    }
}

pub open spec fn mic_part<T>(e: MixEvent<T>) -> Seq<T> {
    match e {
        MixEvent::Mic(c) => c,
        _ => Seq::empty(),
    }
}

pub open spec fn sys_part<T>(e: MixEvent<T>) -> Seq<T> {
    match e {
        MixEvent::Sys(c) => c,
        _ => Seq::empty(),
    }
}

/// Everything fed to the microphone side, in order.
pub open spec fn mic_input<T>(events: Seq<MixEvent<T>>) -> Seq<T>
    decreases events.len(),
{
    if events.len() == 0 {
        Seq::empty()
    } else {
        mic_input(events.drop_last()) + mic_part(events.last())
    }
}

/// Everything fed to the system side, in order.
pub open spec fn sys_input<T>(events: Seq<MixEvent<T>>) -> Seq<T>
    decreases events.len(),
{
    if events.len() == 0 {
        Seq::empty()
    } else {
        sys_input(events.drop_last()) + sys_part(events.last())
    }
}

proof fn lemma_lefts_append<T>(a: Seq<Frame<T>>, b: Seq<Frame<T>>)
    ensures
        lefts(a + b) == lefts(a) + lefts(b),
        rights(a + b) == rights(a) + rights(b),
    decreases b.len(),
{
    if b.len() == 0 {
        assert(a + b =~= a);
        assert(lefts(b) =~= Seq::<T>::empty());
        assert(rights(b) =~= Seq::<T>::empty());
        assert(lefts(a) + lefts(b) =~= lefts(a));
        assert(rights(a) + rights(b) =~= rights(a));
    } else {
        lemma_lefts_append(a, b.drop_last());
        assert((a + b).drop_last() =~= a + b.drop_last());
        assert((a + b).last() == b.last());
    }
}

proof fn lemma_lefts_of_take<T>(m: Seq<T>, s: Seq<T>, k: nat, j: nat)
    requires
        j <= k,
    ensures
        lefts(Seq::new(k, |i: int| (side_at(m, i), side_at(s, i))).take(j as int)) == m.take(
            min_nat(j, m.len()) as int,
        ),
        rights(Seq::new(k, |i: int| (side_at(m, i), side_at(s, i))).take(j as int)) == s.take(
            min_nat(j, s.len()) as int,
        ),
    decreases j,
{
    let f = Seq::new(k, |i: int| (side_at(m, i), side_at(s, i)));
    if j == 0 {
        assert(f.take(0) =~= Seq::<Frame<T>>::empty());
        assert(m.take(0) =~= Seq::<T>::empty());
        assert(s.take(0) =~= Seq::<T>::empty());
    } else {
        lemma_lefts_of_take(m, s, k, (j - 1) as nat);
        assert(f.take(j as int).drop_last() =~= f.take(j - 1));
        assert(f.take(j as int).last() == f[j - 1]);
        if j <= m.len() {
            assert(m.take(j as int) =~= m.take(j - 1) + seq![m[j - 1]]);
        }
        if j <= s.len() {
            assert(s.take(j as int) =~= s.take(j - 1) + seq![s[j - 1]]);
        }
    }
}

/// Taking the ready frames loses and reorders nothing: the samples written
/// on each side, followed by what stays queued, are what was queued.
pub proof fn lemma_take_conserves<T>(v: MixerView<T>)
    ensures
        ({
            let (rest, frames) = take_frames_spec(v);
            &&& lefts(frames) + rest.mic == v.mic
            &&& rights(frames) + rest.sys == v.sys
        }),
{
    let k = frames_ready(v);
    let f = Seq::new(k, |i: int| (side_at(v.mic, i), side_at(v.sys, i)));
    lemma_lefts_of_take(v.mic, v.sys, k, k);
    assert(f.take(k as int) =~= f);
    let a = min_nat(k, v.mic.len()) as int;
    let b = min_nat(k, v.sys.len()) as int;
    assert(v.mic.take(a) + v.mic.skip(a) =~= v.mic);
    assert(v.sys.take(b) + v.sys.skip(b) =~= v.sys);
}

proof fn lemma_step_conserves<T>(v: MixerView<T>, e: MixEvent<T>)
    ensures
        ({
            let (v2, frames) = take_frames_spec(apply_event(v, e));
            &&& lefts(frames) + v2.mic == v.mic + mic_part(e)
            &&& rights(frames) + v2.sys == v.sys + sys_part(e)
        }),
{
    let w = apply_event(v, e);
    lemma_take_conserves(w);
    match e {
        MixEvent::Mic(c) => {
            assert(v.sys + sys_part(e) =~= v.sys);
        },
        MixEvent::Sys(c) => {
            assert(v.mic + mic_part(e) =~= v.mic);
        },
        _ => {
            assert(v.sys + sys_part(e) =~= v.sys);
            assert(v.mic + mic_part(e) =~= v.mic);
        },
    }
}

/// Over a whole session, every sample fed to the microphone side comes out
/// on the left channel and every system sample on the right, in the order
/// they were fed, except what is still queued.
pub proof fn lemma_session_conserves<T>(start_mic_open: bool, start_sys_open: bool, events: Seq<
    MixEvent<T>,
>)
    ensures
        ({
            let start = MixerView {
                mic: Seq::<T>::empty(),
                sys: Seq::<T>::empty(),
                mic_open: start_mic_open,
                sys_open: start_sys_open,
            };
            let (v, out) = run_session(start, events);
            &&& lefts(out) + v.mic == mic_input(events)
            &&& rights(out) + v.sys == sys_input(events)
        }),
    decreases events.len(),
{
    let start = MixerView {
        mic: Seq::<T>::empty(),
        sys: Seq::<T>::empty(),
        mic_open: start_mic_open,
        sys_open: start_sys_open,
    };
    if events.len() == 0 {
        assert(lefts(Seq::<Frame<T>>::empty()) + Seq::<T>::empty() =~= Seq::<T>::empty());
        assert(rights(Seq::<Frame<T>>::empty()) + Seq::<T>::empty() =~= Seq::<T>::empty());
    } else {
        lemma_session_conserves(start_mic_open, start_sys_open, events.drop_last());
        let (v, out) = run_session(start, events.drop_last());
        let e = events.last();
        let (v2, frames) = take_frames_spec(apply_event(v, e));
        lemma_step_conserves(v, e);
        lemma_lefts_append(out, frames);
        assert(lefts(out + frames) + v2.mic =~= (lefts(out) + v.mic) + mic_part(e));
        assert(rights(out + frames) + v2.sys =~= (rights(out) + v.sys) + sys_part(e));
    }
}

/// Once both inputs have closed, taking the ready frames empties both
/// queues.
pub proof fn lemma_closed_drains<T>(v: MixerView<T>)
    requires
        !v.mic_open,
        !v.sys_open,
    ensures
        take_frames_spec(v).0.mic.len() == 0,
        take_frames_spec(v).0.sys.len() == 0,
{
}

/// No written frame is silent on both sides, and while both inputs are open
/// every frame carries a sample on each side.
pub proof fn lemma_frames_shape<T>(v: MixerView<T>)
    ensures
        forall|i: int|
            0 <= i < take_frames_spec(v).1.len() ==> {
                let f = #[trigger] take_frames_spec(v).1[i];
                &&& (f.0.is_some() || f.1.is_some())
                &&& (v.mic_open && v.sys_open) ==> (f.0.is_some() && f.1.is_some())
            },
{
}

/// Whether a session feeds each side only while it is open: no chunk for a
/// side that started closed or whose end was already signalled.
pub open spec fn feeds_only_open<T>(
    start_mic_open: bool,
    start_sys_open: bool,
    events: Seq<MixEvent<T>>,
) -> bool {
    forall|i: int|
        0 <= i < events.len() ==> {
            &&& (#[trigger] events[i] is Mic ==> start_mic_open && forall|j: int|
                0 <= j < i ==> !(events[j] is MicClosed))
            &&& (events[i] is Sys ==> start_sys_open && forall|j: int|
                0 <= j < i ==> !(events[j] is SysClosed))
        }
}

proof fn lemma_frames_sides<T>(w: MixerView<T>)
    ensures
        lefts(take_frames_spec(w).1).len() == min_nat(frames_ready(w), w.mic.len()),
        rights(take_frames_spec(w).1).len() == min_nat(frames_ready(w), w.sys.len()),
{
    let k = frames_ready(w);
    let f = Seq::new(k, |i: int| (side_at(w.mic, i), side_at(w.sys, i)));
    lemma_lefts_of_take(w.mic, w.sys, k, k);
    assert(f.take(k as int) =~= f);
}

proof fn lemma_count_invariant<T>(start_mic_open: bool, start_sys_open: bool, events: Seq<
    MixEvent<T>,
>)
    requires
        feeds_only_open(start_mic_open, start_sys_open, events),
    ensures
        ({
            let start = MixerView {
                mic: Seq::<T>::empty(),
                sys: Seq::<T>::empty(),
                mic_open: start_mic_open,
                sys_open: start_sys_open,
            };
            let (v, out) = run_session(start, events);
            let l = lefts(out).len();
            let r = rights(out).len();
            &&& out.len() == max_nat(l, r)
            &&& l < out.len() ==> v.mic.len() == 0 && !v.mic_open
            &&& r < out.len() ==> v.sys.len() == 0 && !v.sys_open
            &&& (!v.mic_open && !v.sys_open) ==> v.mic.len() == 0 && v.sys.len() == 0
            &&& v.mic_open == (start_mic_open && forall|j: int|
                0 <= j < events.len() ==> !(events[j] is MicClosed))
            &&& v.sys_open == (start_sys_open && forall|j: int|
                0 <= j < events.len() ==> !(events[j] is SysClosed))
        }),
    decreases events.len(),
{
    let start = MixerView {
        mic: Seq::<T>::empty(),
        sys: Seq::<T>::empty(),
        mic_open: start_mic_open,
        sys_open: start_sys_open,
    };
    if events.len() > 0 {
        let pre = events.drop_last();
        assert forall|i: int| 0 <= i < pre.len() implies {
            &&& (#[trigger] pre[i] is Mic ==> start_mic_open && forall|j: int|
                0 <= j < i ==> !(pre[j] is MicClosed))
            &&& (pre[i] is Sys ==> start_sys_open && forall|j: int|
                0 <= j < i ==> !(pre[j] is SysClosed))
        } by {
            assert(pre[i] == events[i]);
            assert(forall|j: int| 0 <= j < i ==> pre[j] == events[j]);
        }
        lemma_count_invariant(start_mic_open, start_sys_open, pre);
        let (v, out) = run_session(start, pre);
        let e = events.last();
        let w = apply_event(v, e);
        let (v2, frames) = take_frames_spec(w);
        lemma_lefts_append(out, frames);
        lemma_frames_sides(w);
        let last = events.len() - 1;
        assert(events[last] == e);
        assert(forall|j: int| 0 <= j < last ==> pre[j] == events[j]);
        if e is Mic {
            assert(v.mic_open);
        }
        if e is Sys {
            assert(v.sys_open);
        }
        assert(v2.mic_open == (start_mic_open && forall|j: int|
            0 <= j < events.len() ==> !(events[j] is MicClosed))) by {
            if !(e is MicClosed) && v2.mic_open == false {
                assert(!v.mic_open);
            }
        }
        assert(v2.sys_open == (start_sys_open && forall|j: int|
            0 <= j < events.len() ==> !(events[j] is SysClosed))) by {
            if !(e is SysClosed) && v2.sys_open == false {
                assert(!v.sys_open);
            }
        }
    }
}

/// A session that feeds each side only while it is open has, once both
/// sides have closed, written exactly as many frames as the longer side
/// had samples.
pub proof fn lemma_session_frame_count<T>(
    start_mic_open: bool,
    start_sys_open: bool,
    events: Seq<MixEvent<T>>,
)
    requires
        feeds_only_open(start_mic_open, start_sys_open, events),
    ensures
        ({
            let start = MixerView {
                mic: Seq::<T>::empty(),
                sys: Seq::<T>::empty(),
                mic_open: start_mic_open,
                sys_open: start_sys_open,
            };
            let (v, out) = run_session(start, events);
            (!v.mic_open && !v.sys_open) ==> out.len() == max_nat(
                mic_input(events).len(),
                sys_input(events).len(),
            )
        }),
{
    lemma_count_invariant(start_mic_open, start_sys_open, events);
    lemma_session_conserves(start_mic_open, start_sys_open, events);
}

impl<T: Copy> MixerQueues<T> {
    /// Empty queues; a side that has no input at all starts closed.
    pub fn new(mic_open: bool, sys_open: bool) -> (r: Self)
        ensures
            r@.mic.len() == 0,
            r@.sys.len() == 0,
            r@.mic_open == mic_open,
            r@.sys_open == sys_open,
    {
        MixerQueues { mic: Vec::new(), sys: Vec::new(), mic_open, sys_open }
    }

    pub fn is_mic_open(&self) -> (r: bool)
        ensures
            r == self@.mic_open,
    {
        self.mic_open
    }

    pub fn is_sys_open(&self) -> (r: bool)
        ensures
            r == self@.sys_open,
    {
        self.sys_open
    }

    /// Whether both inputs have closed, so that nothing more will come.
    pub fn is_finished(&self) -> (r: bool)
        ensures
            r == (!self@.mic_open && !self@.sys_open),
    {
        !self.mic_open && !self.sys_open
    }

    fn push_all(q: &mut Vec<T>, chunk: &[T])
        ensures
            final(q)@ == old(q)@ + chunk@,
    {
        let mut i: usize = 0;
        while i < chunk.len()
            invariant
                i <= chunk.len(),
                q@ == old(q)@ + chunk@.take(i as int),
            decreases chunk.len() - i,
        {
            q.push(chunk[i]);
            i += 1;
            assert(q@ =~= old(q)@ + chunk@.take(i as int));
        }
        assert(chunk@.take(chunk.len() as int) =~= chunk@);
    }

    /// Queues a chunk of microphone samples.
    pub fn push_mic(&mut self, chunk: &[T])
        ensures
            final(self)@ == apply_event(old(self)@, MixEvent::Mic(chunk@)),
    {
        Self::push_all(&mut self.mic, chunk);
    }

    /// Queues a chunk of system-audio samples.
    pub fn push_sys(&mut self, chunk: &[T])
        ensures
            final(self)@ == apply_event(old(self)@, MixEvent::Sys(chunk@)),
    {
        Self::push_all(&mut self.sys, chunk);
    }

    pub fn close_mic(&mut self)
        ensures
            final(self)@ == apply_event(old(self)@, MixEvent::<T>::MicClosed),
    {
        self.mic_open = false;
    }

    pub fn close_sys(&mut self)
        ensures
            final(self)@ == apply_event(old(self)@, MixEvent::<T>::SysClosed),
    {
        self.sys_open = false;
    }

    /// How many frames can be written now.
    pub fn ready(&self) -> (r: usize)
        ensures
            r == frames_ready(self@),
    {
        let m = self.mic.len();
        let s = self.sys.len();
        if !self.mic_open && !self.sys_open {
            if m >= s {
                m
            } else {
                s
            }
        } else if !self.sys_open {
            m
        } else if !self.mic_open {
            s
        } else if m <= s {
            m
        } else {
            s
        }
    }

    fn drain_front(q: &mut Vec<T>, n: usize) -> (taken: Vec<T>)
        requires
            n <= old(q).len(),
        ensures
            taken@ == old(q)@.take(n as int),
            final(q)@ == old(q)@.skip(n as int),
    {
        let mut taken: Vec<T> = Vec::new();
        let mut rest: Vec<T> = Vec::new();
        let mut i: usize = 0;
        while i < q.len()
            invariant
                n <= q.len(),
                i <= q.len(),
                q@ == old(q)@,
                taken@ == q@.take(if i <= n { i as int } else { n as int }),
                rest@ == if i <= n { Seq::<T>::empty() } else { q@.subrange(n as int, i as int) },
            decreases q.len() - i,
        {
            if i < n {
                taken.push(q[i]);
                assert(taken@ =~= q@.take(i + 1));
            } else {
                rest.push(q[i]);
                assert(rest@ =~= q@.subrange(n as int, i + 1));
            }
            i += 1;
        }
        proof {
            if q.len() == n {
                assert(q@.skip(n as int) =~= Seq::<T>::empty());
            } else {
                assert(q@.subrange(n as int, q.len() as int) =~= q@.skip(n as int));
            }
        }
        *q = rest;
        taken
    }

    /// Writes every frame that is ready: the oldest queued samples, paired
    /// in order, with the missing side empty where one input has closed.
    pub fn take_frames(&mut self) -> (frames: Vec<Frame<T>>)
        ensures
            (final(self)@, frames@) == take_frames_spec(old(self)@),
    {
        let k = self.ready();
        let nm = if k <= self.mic.len() {
            k
        } else {
            self.mic.len()
        };
        let ns = if k <= self.sys.len() {
            k
        } else {
            self.sys.len()
        };
        let ghost old_v = self@;
        let m = Self::drain_front(&mut self.mic, nm);
        let s = Self::drain_front(&mut self.sys, ns);
        let mut frames: Vec<Frame<T>> = Vec::new();
        let mut i: usize = 0;
        while i < k
            invariant
                i <= k,
                k == frames_ready(old_v),
                nm == min_nat(k as nat, old_v.mic.len()),
                ns == min_nat(k as nat, old_v.sys.len()),
                m@ == old_v.mic.take(nm as int),
                s@ == old_v.sys.take(ns as int),
                frames@ == Seq::new(i as nat, |j: int| (side_at(old_v.mic, j), side_at(old_v.sys, j))),
            decreases k - i,
        {
            let l = if i < m.len() {
                Some(m[i])
            } else {
                None
            };
            let r = if i < s.len() {
                Some(s[i])
            } else {
                None
            };
            frames.push((l, r));
            i += 1;
            assert(frames@ =~= Seq::new(
                i as nat,
                |j: int| (side_at(old_v.mic, j), side_at(old_v.sys, j)),
            ));
        }
        frames
    }
}

} // verus!
