use lord_varys::commands::{
    check_output_folder, check_wav_exists, check_whisper_model_id, clamp_auto_delete_days, list_recordings,
    model_download_state, privacy_settings_url, recording_status, recording_title,
};
use lord_varys::detection::{detect_platform, detection_step, scan_running_apps, DetectionSource, MeetingEvent};
use lord_varys::error::Error;
use lord_varys::metal::{bundle_resources_dir, choose_metal_resources, ensure_metal_resources, shader_path};
use lord_varys::model::{
    existing_model, is_cached, model_dir, model_from_setting, model_path, partial_path, plan_transfer, range_header,
    ExistingModel, WhisperModel,
};
use lord_varys::onboarding::{
    all_permissions_granted, check_mic_permission, check_screen_recording_permission, mic_permission_from_status,
    onboarding_complete, screen_permission_from_preflight, should_open_onboarding, PermState,
};
use lord_varys::recording::{capture_output_path, plan_capture};
use lord_varys::settings::{bool_setting_text, output_folder_needs_seed, setting_bool, setting_or_default};
use lord_varys::transcription::TranscriptionState;
use lord_varys::tray::{
    menu_action, menu_entries, setup_watch_tick, should_prevent_exit, transcription_tray_tick, MeetingPlatform,
    MenuAction, MenuEntry, TrayIcon, TrayModel, TrayState,
};

#[test]
fn model_catalog() {
    assert_eq!(WhisperModel::from_id("tiny.en"), Some(WhisperModel::TinyEn));
    assert_eq!(WhisperModel::from_id("small_en"), Some(WhisperModel::SmallEn));
    assert_eq!(WhisperModel::from_id("medium.en"), Some(WhisperModel::MediumEn));
    assert_eq!(WhisperModel::from_id("large"), None);
    for m in [WhisperModel::TinyEn, WhisperModel::SmallEn, WhisperModel::MediumEn] {
        assert_eq!(WhisperModel::from_id(m.id()), Some(m));
    }
    assert_eq!(WhisperModel::SmallEn.filename(), "ggml-small.en.bin");
    assert_eq!(
        WhisperModel::TinyEn.url(),
        "https://huggingface.co/ggerganov/whisper.cpp/resolve/main/ggml-tiny.en.bin"
    );
    assert_eq!(WhisperModel::TinyEn.expected_size_bytes(), 39 * 1024 * 1024);
    assert_eq!(WhisperModel::MediumEn.expected_size_bytes(), 1_420 * 1024 * 1024);
    assert_eq!(WhisperModel::SmallEn.display_name(), "Small — balanced (466 MB, default)");
    assert_eq!(WhisperModel::DEFAULT, WhisperModel::SmallEn);
    assert_eq!(model_from_setting("bogus"), WhisperModel::SmallEn);
    assert_eq!(model_from_setting("tiny_en"), WhisperModel::TinyEn);
}

#[test]
fn model_files_and_cache() {
    assert_eq!(model_dir("/data"), "/data/models");
    assert_eq!(model_path("/data", WhisperModel::TinyEn), "/data/models/ggml-tiny.en.bin");
    assert_eq!(partial_path("/data/models/ggml-tiny.en.bin"), "/data/models/ggml-tiny.en.bin.part");
    let min = 39 * 1024 * 1024 * 9 / 10;
    assert!(is_cached(WhisperModel::TinyEn, Some(min)));
    assert!(!is_cached(WhisperModel::TinyEn, Some(min - 1)));
    assert!(!is_cached(WhisperModel::TinyEn, None));
    assert_eq!(existing_model(WhisperModel::TinyEn, Some(min)), ExistingModel::Ready);
    assert_eq!(existing_model(WhisperModel::TinyEn, Some(10)), ExistingModel::Incomplete);
    assert_eq!(existing_model(WhisperModel::TinyEn, None), ExistingModel::Missing);
}

#[test]
fn download_resume_rules() {
    let d = plan_transfer(100, 206, Some(50));
    assert!(!d.discard_partial);
    let t = d.outcome.unwrap();
    assert_eq!((t.resume_from, t.total, t.append), (100, 150, true));
    let d = plan_transfer(100, 200, Some(500));
    assert!(d.discard_partial);
    let t = d.outcome.unwrap();
    assert_eq!((t.resume_from, t.total, t.append), (0, 500, false));
    let d = plan_transfer(0, 200, None);
    assert_eq!(d.outcome.unwrap().total, 0);
    let d = plan_transfer(7, 404, Some(1));
    assert!(d.discard_partial);
    assert_eq!(d.outcome.unwrap_err(), 404);
    assert_eq!(range_header(1234), "bytes=1234-");
}

#[test]
fn permissions() {
    assert_eq!(mic_permission_from_status(3), PermState::Granted);
    assert_eq!(mic_permission_from_status(1), PermState::Denied);
    assert_eq!(mic_permission_from_status(2), PermState::Denied);
    assert_eq!(mic_permission_from_status(0), PermState::Unknown);
    assert_eq!(screen_permission_from_preflight(1), PermState::Granted);
    assert_eq!(screen_permission_from_preflight(0), PermState::Unknown);
    assert_eq!(check_mic_permission(), PermState::Granted);
    assert_eq!(check_screen_recording_permission(), PermState::Granted);
    assert!(all_permissions_granted());
    assert!(onboarding_complete(PermState::Granted, PermState::Granted, true));
    assert!(!onboarding_complete(PermState::Granted, PermState::Unknown, true));
    assert!(!onboarding_complete(PermState::Granted, PermState::Granted, false));
    assert!(should_open_onboarding(false, false));
    assert!(!should_open_onboarding(false, true));
    assert!(!should_open_onboarding(true, false));
}

#[test]
fn capture_planning() {
    assert_eq!(plan_capture(PermState::Granted, PermState::Denied).ok(), Some((true, false)));
    assert_eq!(plan_capture(PermState::Unknown, PermState::Granted).ok(), Some((false, true)));
    match plan_capture(PermState::Denied, PermState::Unknown) {
        Err(e) => assert_eq!(
            e.message(),
            "permission required: neither microphone nor screen recording is granted"
        ),
        Ok(_) => panic!("expected an error"),
    }
    assert_eq!(capture_output_path("/r/a.wav", true, true).ok().unwrap(), "/r/a.wav");
    assert_eq!(capture_output_path("/r/a.wav", true, false).ok().unwrap(), "/r/a_mic-only.wav");
    assert_eq!(capture_output_path("/r/a.wav", false, true).ok().unwrap(), "/r/a_sys-only.wav");
    match capture_output_path("/r/a.wav", false, false) {
        Err(e) => assert_eq!(e.message(), "audio: neither input stream could be opened"),
        Ok(_) => panic!("expected an error"),
    }
}

#[test]
fn error_messages() {
    assert_eq!(Error::AlreadyRecording.message(), "recording is already in progress");
    assert_eq!(Error::NotRecording.message(), "recording is not in progress");
    assert_eq!(Error::Io("gone".into()).message(), "io: gone");
    assert_eq!(Error::Settings("locked".into()).message(), "settings: locked");
    assert_eq!(Error::Sidecar("x".into()).message(), "sidecar: x");
    assert_eq!(Error::Detection("y".into()).message(), "detection: y");
    assert_eq!(Error::Other("plain".into()).message(), "plain");
}

#[test]
fn tray_states() {
    assert_eq!(TrayState::Recording.status_text(), "Recording…");
    assert_eq!(TrayState::PermissionMissing.tooltip(), "Lord Varys — needs permissions");
    assert_eq!(MeetingPlatform::Teams.label(), "Microsoft Teams");
    assert_eq!(MeetingPlatform::Unknown.label(), "meeting");
    let mut t = TrayModel::new();
    let a = t.set_state(TrayState::Recording);
    assert_eq!(a.toggle_label, "Stop Recording");
    assert!(a.toggle_enabled);
    assert_eq!(a.icon, TrayIcon::Recording);
    let a = t.set_state(TrayState::Saving);
    assert_eq!(a.toggle_label, "Saving…");
    assert!(!a.toggle_enabled);
    assert_eq!(t.set_setup_needed(true), Some(TrayIcon::Badge));
    assert_eq!(t.set_setup_needed(true), None);
    let a = t.set_state(TrayState::Transcribing);
    assert_eq!(a.icon, TrayIcon::Badge);
    assert_eq!(a.toggle_label, "Start Recording");
    assert_eq!(t.set_setup_needed(false), Some(TrayIcon::Transcribing));
    assert_eq!(t.set_state(TrayState::Idle).icon, TrayIcon::Idle);
    assert_eq!(t.set_state(TrayState::PermissionMissing).icon, TrayIcon::Badge);
}

#[test]
fn tray_menu() {
    let m = menu_entries(false);
    assert_eq!(m.len(), 6);
    let m = menu_entries(true);
    assert_eq!(m.len(), 7);
    match &m[4] {
        MenuEntry::Item { id, .. } => assert_eq!(*id, "onboarding"),
        MenuEntry::Separator => panic!("expected an item"),
    }
    match &m[6] {
        MenuEntry::Item { id, accelerator, .. } => {
            assert_eq!(*id, "quit");
            assert_eq!(*accelerator, Some("Cmd+Q"));
        }
        MenuEntry::Separator => panic!("expected an item"),
    }
    assert_eq!(menu_action("quit"), MenuAction::Quit);
    assert_eq!(menu_action("settings"), MenuAction::OpenSettings);
    assert_eq!(menu_action("onboarding"), MenuAction::OpenOnboarding);
    assert_eq!(menu_action("toggle_recording"), MenuAction::ToggleRecording);
    assert_eq!(menu_action("status"), MenuAction::Nothing);
}

#[test]
fn watchers() {
    assert_eq!(transcription_tray_tick(true, true, true), (None, false));
    assert_eq!(transcription_tray_tick(false, true, false), (Some(TrayState::Transcribing), true));
    assert_eq!(transcription_tray_tick(false, false, true), (Some(TrayState::Idle), false));
    assert_eq!(transcription_tray_tick(false, true, true), (None, true));
    assert_eq!(setup_watch_tick(false, true), Some(false));
    assert_eq!(setup_watch_tick(true, false), Some(true));
    assert_eq!(setup_watch_tick(true, true), None);
    assert!(should_prevent_exit(None));
    assert!(!should_prevent_exit(Some(0)));
}

#[test]
fn meeting_detection() {
    let running = vec!["com.apple.finder".to_string(), "com.microsoft.teams".to_string(), "us.zoom.xos".to_string()];
    assert_eq!(detect_platform(&running), Some(MeetingPlatform::Zoom));
    assert_eq!(detect_platform(&vec!["com.microsoft.teams2".to_string()]), Some(MeetingPlatform::Teams));
    assert_eq!(detect_platform(&vec!["com.microsoft.teams".to_string()]), Some(MeetingPlatform::Teams));
    assert_eq!(detect_platform(&vec!["com.microsoft.team".to_string()]), None);
    match detection_step(None, Some(MeetingPlatform::Zoom)) {
        (Some(MeetingPlatform::Zoom), Some(MeetingEvent::Started { source, platform, title })) => {
            assert_eq!(source, DetectionSource::NativePoll);
            assert_eq!(platform, MeetingPlatform::Zoom);
            assert!(title.is_empty());
        }
        _ => panic!("expected a start"),
    }
    match detection_step(Some(MeetingPlatform::Teams), None) {
        (None, Some(MeetingEvent::Ended { source })) => assert_eq!(source, DetectionSource::NativePoll),
        _ => panic!("expected an end"),
    }
    let (a, e) = detection_step(Some(MeetingPlatform::Teams), Some(MeetingPlatform::Zoom));
    assert_eq!(a, Some(MeetingPlatform::Teams));
    assert!(e.is_none());
    assert!(scan_running_apps().is_empty());
}

#[test]
fn settings_reading() {
    assert_eq!(setting_or_default(None, "x"), "x");
    assert_eq!(setting_or_default(Some("y".into()), "x"), "y");
    assert!(setting_bool(Some("true".into()), false));
    assert!(!setting_bool(Some("false".into()), true));
    assert!(setting_bool(Some("yes".into()), true));
    assert!(!setting_bool(None, false));
    assert_eq!(bool_setting_text(true), "true");
    let olds = vec!["/a".to_string(), "/b".to_string()];
    assert!(output_folder_needs_seed(None, &olds));
    assert!(output_folder_needs_seed(Some("/b".into()), &olds));
    assert!(!output_folder_needs_seed(Some("/c".into()), &olds));
    assert!(output_folder_needs_seed(Some("/b/".into()), &olds));
    assert!(output_folder_needs_seed(Some("//a/.".into()), &olds));
    assert!(!output_folder_needs_seed(Some("/b/c".into()), &olds));
}

#[test]
fn command_checks() {
    assert_eq!(clamp_auto_delete_days(30), 30);
    assert_eq!(clamp_auto_delete_days(10_000), 3650);
    assert!(check_whisper_model_id("small.en").is_ok());
    assert_eq!(check_whisper_model_id("huge").unwrap_err(), "unknown model: huge");
    assert_eq!(check_output_folder("  \t").unwrap_err(), "output folder cannot be empty");
    assert!(check_output_folder(" /x ").is_ok());
    assert_eq!(check_wav_exists("/r/a.wav", false).unwrap_err(), "WAV not found: /r/a.wav");
    assert_eq!(recording_title(Some("  Standup ")), "Standup");
    assert_eq!(recording_title(Some("   ")), "manual");
    assert_eq!(recording_title(None), "manual");
    assert_eq!(
        privacy_settings_url("Privacy_Microphone").unwrap(),
        "x-apple.systempreferences:com.apple.preference.security?Privacy_Microphone"
    );
    assert!(privacy_settings_url("Privacy_Camera").is_none());
    let s = recording_status(Some("/r/a.wav".into()));
    assert!(s.is_recording);
    assert!(!recording_status(None).is_recording);
    match model_download_state(Err("timeout".into())) {
        TranscriptionState::Failed { message } => assert_eq!(message, "model download: timeout"),
        _ => panic!("expected Failed"),
    }
    assert!(matches!(model_download_state(Ok(())), TranscriptionState::Idle));
}

#[test]
fn recordings_listing() {
    let paths = vec![
        "/r/2026-01-01_09-00_a.wav".to_string(),
        "/r/2026-01-01_09-00_a.txt".to_string(),
        "/r/2026-03-01_10-00_b.wav".to_string(),
        "/r/notes.md".to_string(),
        "/r/2025-12-31_23-59.wav".to_string(),
    ];
    let txt = vec![true, false, false, false, false];
    let v = list_recordings(&paths, &txt);
    let names: Vec<&str> = v.iter().map(|e| e.file_name.as_str()).collect();
    assert_eq!(names, vec!["2026-03-01_10-00_b.wav", "2026-01-01_09-00_a.wav", "2025-12-31_23-59.wav"]);
    assert!(v[1].has_transcript);
    assert_eq!(v[1].transcript_path.as_deref(), Some("/r/2026-01-01_09-00_a.txt"));
    assert!(!v[0].has_transcript && v[0].transcript_path.is_none());
    assert_eq!(v[0].wav_path, "/r/2026-03-01_10-00_b.wav");
}

#[test]
fn metal_resources() {
    ensure_metal_resources();
    assert_eq!(
        bundle_resources_dir("/A.app/Contents/MacOS/app").as_deref(),
        Some("/A.app/Contents/Resources")
    );
    assert_eq!(shader_path("/res"), "/res/ggml-metal.metal");
    assert_eq!(choose_metal_resources(true, Some("/b".into()), true, None, false), None);
    assert_eq!(choose_metal_resources(false, Some("/b".into()), true, Some("/d".into()), true).as_deref(), Some("/b"));
    assert_eq!(choose_metal_resources(false, Some("/b".into()), false, Some("/d".into()), true).as_deref(), Some("/d"));
    assert_eq!(choose_metal_resources(false, None, false, Some("/d".into()), false), None);
}
