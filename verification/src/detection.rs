//! Telling from the running applications whether a meeting app is up.
use vstd::prelude::*;

use crate::text::str_eq;
use crate::tray::MeetingPlatform;

verus! {

/// Seconds between two polls of the running applications.
pub const POLL_INTERVAL_SECS: u64 = 2;

#[derive(Clone, Copy, PartialEq, Eq, Structural, Debug, Hash)]
pub enum DetectionSource {
    ChromeExt,
    NativePoll,
}

pub enum MeetingEvent {
    Started { source: DetectionSource, platform: MeetingPlatform, title: String },
    Ended { source: DetectionSource },
}

pub open spec fn running_has(running: Seq<String>, bundle: Seq<char>) -> bool {
    exists|i: int| 0 <= i < running.len() && #[trigger] running[i]@ == bundle
}

/// The first watched application that is running, in the order Zoom, new
/// Teams, classic Teams.
pub open spec fn detected_of(running: Seq<String>) -> Option<MeetingPlatform> {
    if running_has(running, "us.zoom.xos"@) {
        Some(MeetingPlatform::Zoom)
    } else if running_has(running, "com.microsoft.teams2"@) {
        Some(MeetingPlatform::Teams)
    } else if running_has(running, "com.microsoft.teams"@) {
        Some(MeetingPlatform::Teams)
    } else {
        None
    }
}

fn any_is(running: &Vec<String>, bundle: &str) -> (r: bool)
    ensures
        r == running_has(running@, bundle@),
{
    let mut i: usize = 0;
    while i < running.len()
        invariant
            i <= running.len(),
            forall|k: int| 0 <= k < i ==> running@[k]@ != bundle@,
        decreases running.len() - i,
    {
        if str_eq(running[i].as_str(), bundle) {
            return true;
        }
        i += 1;
    }
    false
}

/// Which watched meeting application, if any, is among the running
/// bundle identifiers.
pub fn detect_platform(running: &Vec<String>) -> (r: Option<MeetingPlatform>)
    ensures
        r == detected_of(running@),
{
    if any_is(running, "us.zoom.xos") {
        Some(MeetingPlatform::Zoom)
    } else if any_is(running, "com.microsoft.teams2") {
        Some(MeetingPlatform::Teams)
    } else if any_is(running, "com.microsoft.teams") {
        Some(MeetingPlatform::Teams)
    } else {
        None
    }
}

/// One poll: a meeting app appearing starts a meeting, its disappearance
/// ends it, anything else changes nothing. Returns the new active platform
/// and the event to send.
pub fn detection_step(active: Option<MeetingPlatform>, detected: Option<MeetingPlatform>) -> (r: (
    Option<MeetingPlatform>,
    Option<MeetingEvent>,
))
    ensures
        active.is_none() && detected.is_some() ==> r.0 == detected && (r.1 matches Some(
            MeetingEvent::Started { source, platform, title },
        ) && source == DetectionSource::NativePoll && Some(platform) == detected && title@.len()
            == 0),
        active.is_some() && detected.is_none() ==> r.0.is_none() && (r.1 matches Some(
            MeetingEvent::Ended { source },
        ) && source == DetectionSource::NativePoll),
        active.is_some() == detected.is_some() ==> r.0 == active && r.1.is_none(),
        r.0 == poll_spec(active, detected).0,
        match poll_spec(active, detected).1 {
            Some(true) => r.1 matches Some(MeetingEvent::Started { .. }),
            Some(false) => r.1 matches Some(MeetingEvent::Ended { .. }),
            None => r.1.is_none(),
        },
{
    match (active, detected) {
        (None, Some(p)) => (
            Some(p),
            Some(
                MeetingEvent::Started {
                    source: DetectionSource::NativePoll,
                    platform: p,
                    title: String::new(),
                },
            ),
        ),
        (Some(_), None) => (None, Some(MeetingEvent::Ended { source: DetectionSource::NativePoll })),
        _ => (active, None),
    }
}

/// The running applications' bundle identifiers where the system offers no
/// way to list them (every platform but macOS): none.
pub fn scan_running_apps() -> (r: Vec<String>)
    ensures
        r.len() == 0,
{
    Vec::new()
}

/// The platform kept after one poll, and whether the poll sent a start
/// (`Some(true)`), an end (`Some(false)`) or nothing.
pub open spec fn poll_spec(active: Option<MeetingPlatform>, detected: Option<MeetingPlatform>) -> (
    Option<MeetingPlatform>,
    Option<bool>,
) {
    if active.is_none() && detected.is_some() {
        (detected, Some(true))
    } else if active.is_some() && detected.is_none() {
        (None, Some(false))
    } else {
        (active, None)
    }
}

/// The events sent over a run of polls, from no active meeting.
pub open spec fn poll_run(detections: Seq<Option<MeetingPlatform>>) -> (Option<MeetingPlatform>, Seq<
    bool,
>)
    decreases detections.len(),
{
    if detections.len() == 0 {
        (None, Seq::empty())
    } else {
        let (active, events) = poll_run(detections.drop_last());
        let (next, e) = poll_spec(active, detections.last());
        (next, match e {
            Some(b) => events.push(b),
            None => events,
        })
    }
}

/// The events of a run of polls alternate, start first: a meeting is never
/// started twice or ended before it started, and a meeting is active
/// exactly when the last event was a start.
pub proof fn lemma_polls_alternate(detections: Seq<Option<MeetingPlatform>>)
    ensures
        ({
            let (active, events) = poll_run(detections);
            &&& forall|i: int| 0 <= i < events.len() ==> #[trigger] events[i] == (i % 2 == 0)
            &&& active.is_some() == (events.len() % 2 == 1)
        }),
    decreases detections.len(),
{
    if detections.len() > 0 {
        lemma_polls_alternate(detections.drop_last());
        let (active, events) = poll_run(detections.drop_last());
        let (_, e) = poll_spec(active, detections.last());
        match e {
            Some(b) => {
                let ev2 = events.push(b);
                assert forall|i: int| 0 <= i < ev2.len() implies #[trigger] ev2[i] == (i % 2 == 0) by {
                    if i < events.len() {
                        assert(ev2[i] == events[i]);
                    }
                }
            },
            None => {},
        }
    }
}

} // verus!
