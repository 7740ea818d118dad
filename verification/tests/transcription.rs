use lord_varys::job::{job_step, JobAction, JobEvent, JobStage, JobStatus};
use lord_varys::transcribe::{collect_segments, thread_count, RawSegment, Segment};
use lord_varys::transcription::{
    finish_state, format_timestamp, merge_segments, render_markdown, split_channels, transcript_paths,
    LabelledSegment, Speaker, TranscriptionState,
};

fn seg(start: i64, end: i64, t: &str) -> Segment {
    Segment { start_ms: start, end_ms: end, text: t.into() }
}

#[test]
fn merge_orders_by_start() {
    let mic = vec![seg(0, 1000, "hello"), seg(3000, 4000, "ok thanks")];
    let sys = vec![seg(1500, 2500, "hi"), seg(5000, 6000, "bye")];
    let merged = merge_segments(&mic, &sys);
    assert_eq!(merged.len(), 4);
    assert_eq!(merged[0].speaker, Speaker::You);
    assert_eq!(merged[1].speaker, Speaker::Them);
    assert_eq!(merged[2].speaker, Speaker::You);
    assert_eq!(merged[3].speaker, Speaker::Them);
}

#[test]
fn timestamp_under_hour() {
    assert_eq!(format_timestamp(0), "00:00");
    assert_eq!(format_timestamp(65_000), "01:05");
}

#[test]
fn timestamp_over_hour() {
    assert_eq!(format_timestamp(3_661_000), "01:01:01");
}

#[test]
fn timestamp_edges() {
    assert_eq!(format_timestamp(-5_000), "00:00");
    assert_eq!(format_timestamp(999), "00:00");
    assert_eq!(format_timestamp(3_599_999), "59:59");
    assert_eq!(format_timestamp(36_000_000 * 10), "100:00:00");
}

#[test]
fn merge_keeps_mic_first_at_equal_times_and_side_order() {
    let mic = vec![seg(100, 200, "a"), seg(100, 300, "b")];
    let sys = vec![seg(100, 150, "c"), seg(50, 60, "d")];
    let m = merge_segments(&mic, &sys);
    let texts: Vec<&str> = m.iter().map(|s| s.text.as_str()).collect();
    assert_eq!(texts, vec!["d", "a", "b", "c"]);
    assert_eq!(m[0].speaker, Speaker::Them);
    assert_eq!(m[1].end_ms, 200);
}

#[test]
fn markdown_rendering() {
    assert_eq!(render_markdown(&vec![]), "# Transcript\n\n_No speech detected._\n");
    let segs = vec![
        LabelledSegment { speaker: Speaker::You, start_ms: 1_000, end_ms: 2_000, text: "  hi there ".into() },
        LabelledSegment { speaker: Speaker::Them, start_ms: 3_725_000, end_ms: 3_726_000, text: "bye".into() },
    ];
    assert_eq!(
        render_markdown(&segs),
        "# Transcript\n\n**[00:01] You:** hi there\n\n**[01:02:05] Them:** bye\n\n"
    );
}

#[test]
fn finishing_states() {
    match finish_state(Ok("/r/a.txt".into()), false) {
        TranscriptionState::Done { transcript_path } => assert_eq!(transcript_path, "/r/a.txt"),
        _ => panic!("expected Done"),
    }
    assert!(matches!(finish_state(Err("boom".into()), true), TranscriptionState::Cancelled));
    assert!(matches!(
        finish_state(Err("x: transcription cancelled".into()), false),
        TranscriptionState::Cancelled
    ));
    match finish_state(Err("disk full".into()), false) {
        TranscriptionState::Failed { message } => assert_eq!(message, "disk full"),
        _ => panic!("expected Failed"),
    }
}

#[test]
fn activity_of_states() {
    assert!(TranscriptionState::LoadingModel.is_active());
    assert!(TranscriptionState::Transcribing { progress_pct: 5 }.is_active());
    assert!(TranscriptionState::DownloadingModel { model: "tiny.en".into(), done_bytes: 0, total_bytes: 0 }.is_active());
    assert!(!TranscriptionState::Idle.is_active());
    assert!(!TranscriptionState::Cancelled.is_active());
}

#[test]
fn channel_split() {
    let x = vec![1, 10, 2, 20, 3, 30, 4];
    let (m, s) = split_channels(&x, 2).unwrap();
    assert_eq!(m, vec![1, 2, 3]);
    assert_eq!(s, vec![10, 20, 30]);
    let (m, s) = split_channels(&x, 1).unwrap();
    assert_eq!(m, x);
    assert!(s.is_empty());
    let (m, s) = split_channels(&vec![1, 2, 3, 4, 5, 6], 3).unwrap();
    assert_eq!(m, vec![1, 4]);
    assert_eq!(s, vec![2, 5]);
    assert_eq!(split_channels::<i32>(&vec![], 0).unwrap_err(), "WAV has no channels");
}

#[test]
fn transcript_files_beside_the_recording() {
    let (t, j) = transcript_paths("/r/2026-01-01_10-00_sync.wav");
    assert_eq!(t, "/r/2026-01-01_10-00_sync.txt");
    assert_eq!(j, "/r/2026-01-01_10-00_sync.json");
}

#[test]
fn segments_from_recogniser() {
    let raw = vec![
        RawSegment { text: "  hello ".into(), t0: Some(12), t1: Some(30) },
        RawSegment { text: "   ".into(), t0: Some(31), t1: Some(40) },
        RawSegment { text: "x".into(), t0: None, t1: Some(50) },
    ];
    let out = collect_segments(&raw);
    assert_eq!(out.len(), 2);
    assert_eq!(out[0].text, "hello");
    assert_eq!(out[0].start_ms, 120);
    assert_eq!(out[0].end_ms, 300);
    assert_eq!(out[1].start_ms, 0);
    assert_eq!(out[1].end_ms, 500);
}

#[test]
fn recogniser_threads() {
    assert_eq!(thread_count(None), 3);
    assert_eq!(thread_count(Some(1)), 2);
    assert_eq!(thread_count(Some(2)), 2);
    assert_eq!(thread_count(Some(8)), 7);
}

#[test]
fn job_runs_every_step_when_not_cancelled() {
    let steps = [
        (JobEvent::Begin { model_cached: false }, JobAction::FetchModel, JobStatus::Downloading),
        (JobEvent::ModelFetched, JobAction::LoadModel, JobStatus::LoadingModel),
        (JobEvent::ModelLoaded, JobAction::ReadAudio, JobStatus::Progress(0)),
        (JobEvent::AudioRead, JobAction::TranscribeMic, JobStatus::Progress(5)),
        (JobEvent::MicTranscribed, JobAction::TranscribeSys, JobStatus::Progress(50)),
        (JobEvent::SysTranscribed, JobAction::WriteTranscript, JobStatus::Progress(95)),
        (JobEvent::Written, JobAction::Complete, JobStatus::Keep),
    ];
    let mut stage = JobStage::Start;
    for (event, action, status) in steps {
        let (next, a, s) = job_step(stage, false, event);
        assert_eq!((a, s), (action, status));
        stage = next;
    }
    assert_eq!(stage, JobStage::Finished);
    let (next, a, _) = job_step(JobStage::Start, false, JobEvent::Begin { model_cached: true });
    assert_eq!((next, a), (JobStage::LoadingModel, JobAction::LoadModel));
}

#[test]
fn job_stops_on_cancel_at_its_checks() {
    let (next, a, s) = job_step(JobStage::Start, true, JobEvent::Begin { model_cached: true });
    assert_eq!((next, a, s), (JobStage::Finished, JobAction::Cancel, JobStatus::Keep));
    let (_, a, _) = job_step(JobStage::FetchingModel, true, JobEvent::ModelFetched);
    assert_eq!(a, JobAction::Cancel);
    let (_, a, _) = job_step(JobStage::ReadingAudio, true, JobEvent::AudioRead);
    assert_eq!(a, JobAction::TranscribeMic);
    let (next, a, _) = job_step(JobStage::TranscribingMic, true, JobEvent::MicTranscribed);
    assert_eq!((next, a), (JobStage::Finished, JobAction::Cancel));
    let (next, a, _) = job_step(JobStage::Writing, false, JobEvent::AudioRead);
    assert_eq!((next, a), (JobStage::Writing, JobAction::Stay));
}
