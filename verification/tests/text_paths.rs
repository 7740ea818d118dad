use lord_varys::paths::{
    join_path, path_components_of, path_eq, path_extension, path_file_name, path_file_stem, path_parent,
    path_with_extension,
};
use lord_varys::text::{str_contains, str_eq, trim};

#[test]
fn trimming_uses_unicode_white_space() {
    assert_eq!(trim("  a b \n"), "a b");
    assert_eq!(trim("\u{3000}x\u{a0}"), "x");
    assert_eq!(trim(" \t "), "");
    assert_eq!(trim(""), "");
    for s in ["  a  ", "\u{2028}b\u{85}", "c", " \u{200a}d e\u{205f}"] {
        assert_eq!(trim(s), s.trim());
    }
}

#[test]
fn string_helpers() {
    assert!(str_eq("abc", "abc"));
    assert!(!str_eq("abc", "abd"));
    assert!(str_contains("transcription cancelled", "cancelled"));
    assert!(!str_contains("cancel", "cancelled"));
    assert!(str_contains("x", ""));
}

#[test]
fn paths_follow_std_on_plain_paths() {
    for (base, name) in [("/tmp", "a.wav"), ("/tmp/", "a.wav"), ("", "a"), ("rel", "b/c"), ("/x", "/abs")] {
        let expect = std::path::Path::new(base).join(name);
        assert_eq!(join_path(base, name), expect.to_str().unwrap());
    }
    for p in ["/tmp/a.wav", "a.b.c", ".bashrc", "/", "/tmp/x", "dir/file.", "noext", "a/.."] {
        check_against_std(p);
    }
}

fn check_against_std(p: &str) {
    let sp = std::path::Path::new(p);
    assert_eq!(path_file_name(p).as_deref(), sp.file_name().map(|s| s.to_str().unwrap()), "{p}");
    assert_eq!(path_file_stem(p).as_deref(), sp.file_stem().map(|s| s.to_str().unwrap()), "{p}");
    assert_eq!(path_extension(p).as_deref(), sp.extension().map(|s| s.to_str().unwrap()), "{p}");
    assert_eq!(path_parent(p).as_deref(), sp.parent().map(|s| s.to_str().unwrap()), "{p}");
    assert_eq!(path_with_extension(p, "txt"), sp.with_extension("txt").to_str().unwrap(), "{p}");
}

#[test]
fn paths_follow_std_on_untidy_paths() {
    for p in [
        "/tmp/a.wav/", "/tmp//a.wav", "/tmp/a.wav/.", "/tmp/./a.wav", "a/./b/", "./a", ".", "./",
        "..", "//", "/.", "/./a", "x//", ".//a", "a/../", "/tmp/a.wav//./", "", "rec.wav/",
    ] {
        check_against_std(p);
    }
}

#[test]
fn path_equality_follows_std() {
    let samples = [
        "/d/Lord Varys", "/d/Lord Varys/", "/d//Lord Varys", "/d/./Lord Varys/.", "d/Lord Varys",
        "./d/Lord Varys", "/d/Lord Varys/..", "/", "//", ".", "./", "", "a", "a/", "./a",
    ];
    for a in samples {
        let comps: Vec<String> = path_components_of(a).iter().map(|c| c.iter().collect()).collect();
        let expect: Vec<String> = std::path::Path::new(a)
            .components()
            .map(|c| c.as_os_str().to_str().unwrap().to_string())
            .collect();
        assert_eq!(comps, expect, "{a}");
        for b in samples {
            assert_eq!(path_eq(a, b), std::path::Path::new(a) == std::path::Path::new(b), "{a} {b}");
        }
    }
}
