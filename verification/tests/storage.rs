use std::path::Path;

use lord_varys::storage::{
    build_recording_path, default_output_folder, fallback_output_folder, known_old_defaults,
    old_defaults_from, recording_file_name, seed_plan, slugify, with_degraded_suffix,
};

#[test]
fn slugify_works() {
    assert_eq!(slugify("Hello, World!"), "hello-world");
    assert_eq!(slugify("   "), "");
    assert_eq!(slugify("Q4 Roadmap (Draft)"), "q4-roadmap-draft");
    assert_eq!(slugify("---weird---"), "weird");
}

#[test]
fn timestamped_filename_format() {
    let p = build_recording_path("/tmp", "Sync");
    let name = Path::new(&p).file_name().unwrap().to_str().unwrap();
    assert!(name.ends_with("_sync.wav"));
    assert!(name.len() >= "YYYY-MM-DD_HH-MM_sync.wav".len());
}

#[test]
fn empty_title_drops_segment() {
    let p = build_recording_path("/tmp", "   ");
    let name = Path::new(&p).file_name().unwrap().to_str().unwrap();
    assert!(!name.contains("_."));
    assert!(name.ends_with(".wav"));
}

#[test]
fn degraded_suffix() {
    let p = with_degraded_suffix("/tmp/2026-05-08_10-30_sync.wav", "mic-only");
    assert_eq!(p, "/tmp/2026-05-08_10-30_sync_mic-only.wav");
}

#[test]
fn slug_is_capped_without_trailing_dash() {
    let long = "a".repeat(59) + " b" + &"c".repeat(10);
    let s = slugify(&long);
    assert_eq!(s, "a".repeat(59));
    let s2 = slugify(&"x".repeat(80));
    assert_eq!(s2.len(), 60);
}

#[test]
fn slug_drops_non_ascii_and_lowercases() {
    assert_eq!(slugify("Café Réunion"), "caf-r-union");
    assert_eq!(slugify("ABC__def  9"), "abc-def-9");
    assert_eq!(slugify(""), "");
}

#[test]
fn slug_shape_on_many_titles() {
    for t in ["", "--", "a--b", "Weekly 1:1 / Sync!!", "  lead", "trail  ", "ÄÖÜ"] {
        let s = slugify(t);
        assert!(s.len() <= 60);
        assert!(!s.starts_with('-') && !s.ends_with('-'));
        assert!(!s.contains("--"));
        assert!(s.chars().all(|c| c.is_ascii_lowercase() || c.is_ascii_digit() || c == '-'));
    }
}

#[test]
fn file_name_with_and_without_slug() {
    assert_eq!(recording_file_name("2026-01-02_03-04", "Team Sync"), "2026-01-02_03-04_team-sync.wav");
    assert_eq!(recording_file_name("2026-01-02_03-04", "!!"), "2026-01-02_03-04.wav");
}

#[test]
fn stamp_comes_from_the_clock() {
    let p = build_recording_path("out", "x");
    let name = Path::new(&p).file_name().unwrap().to_str().unwrap().to_string();
    assert!(p.starts_with("out/"));
    let stamp = &name[..16];
    let bytes: Vec<char> = stamp.chars().collect();
    for (i, c) in bytes.iter().enumerate() {
        match i {
            4 | 7 | 13 => assert_eq!(*c, '-'),
            10 => assert_eq!(*c, '_'),
            _ => assert!(c.is_ascii_digit()),
        }
    }
    assert_eq!(&name[16..], "_x.wav");
}

#[test]
fn degraded_suffix_on_untidy_paths() {
    assert_eq!(with_degraded_suffix("/tmp/a.wav/", "x"), "/tmp/a_x.wav");
    assert_eq!(with_degraded_suffix("/tmp//a.wav", "x"), "/tmp/a_x.wav");
    assert_eq!(with_degraded_suffix("/tmp/./a.wav/.", "x"), "/tmp/a_x.wav");
}

#[test]
fn recording_name_has_the_stamp_shape() {
    let p = build_recording_path("/tmp", "Sync");
    let name = Path::new(&p).file_name().unwrap().to_str().unwrap();
    let stamp = name.strip_suffix("_sync.wav").unwrap();
    let b = stamp.as_bytes();
    let n = b.len();
    assert!(n >= 16);
    assert!(b[..n - 12].iter().all(|c| c.is_ascii_digit()));
    for (i, c) in b[n - 12..].iter().enumerate() {
        match i {
            0 | 3 | 9 => assert_eq!(*c, b'-'),
            6 => assert_eq!(*c, b'_'),
            _ => assert!(c.is_ascii_digit()),
        }
    }
    assert_eq!(Path::new(&p).parent().unwrap(), Path::new("/tmp"));
}

#[test]
fn degraded_suffix_edge_cases() {
    assert_eq!(with_degraded_suffix("rec.wav", "sys-only"), "rec_sys-only.wav");
    assert_eq!(with_degraded_suffix("/a/b.c.wav", "mic-only"), "/a/b.c_mic-only.wav");
    assert_eq!(with_degraded_suffix("/x", "mic-only"), "/x_mic-only.wav");
    assert_eq!(with_degraded_suffix("/", "mic-only"), "./recording_mic-only.wav");
}

#[test]
fn old_defaults_and_fallbacks() {
    let v = old_defaults_from(Some("/Users/a/Documents".into()), Some("/Users/a".into()));
    assert_eq!(v, vec!["/Users/a/Documents/Lord Varys".to_string(), "/Users/a/Documents/Lord Varys".to_string()]);
    assert!(old_defaults_from(None, None).is_empty());
    assert_eq!(fallback_output_folder(None, Some("/h".into())), "/h/Lord Varys");
    assert_eq!(fallback_output_folder(None, None), "./Lord Varys");
    assert_eq!(fallback_output_folder(Some("/d/".into()), Some("/h".into())), "/d/Lord Varys");
    assert_eq!(default_output_folder(Some("/repo")), "/repo/recordings");
    assert!(default_output_folder(None).ends_with("Lord Varys"));
    for p in known_old_defaults() {
        assert!(p.ends_with("/Lord Varys"));
    }
}

#[test]
fn seeding_rules() {
    let olds = vec!["/d/Lord Varys".to_string()];
    let p = seed_plan(None, &olds, true, false);
    assert!(p.output_folder && !p.mic_gain && p.sys_gain);
    let p = seed_plan(Some("/d/Lord Varys".into()), &olds, false, true);
    assert!(p.output_folder && p.mic_gain && !p.sys_gain);
    let p = seed_plan(Some("/mine".into()), &olds, true, true);
    assert!(!p.output_folder && !p.mic_gain && !p.sys_gain);
}
