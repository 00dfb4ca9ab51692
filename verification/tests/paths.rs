use adb_sync::error::SyncError;
use adb_sync::paths::{
    adb_missing_file, build_remote_path, canonicalize_local_root, directory_depth, local_candidate,
    normalize_remote_dir_path, normalize_remote_path, should_skip_entry, whitespace, LocalProbe,
};

fn normal(path: &str) -> String {
    normalize_remote_path(path).unwrap()
}

#[test]
fn normalization() {
    assert_eq!(normal("\\a\\./b/../c/"), "/a/c");
    assert_eq!(normal("///"), "/");
}

#[test]
fn normalization_of_the_root_and_of_nothing() {
    assert_eq!(normal("/"), "/");
    assert_eq!(
        normalize_remote_path(""),
        Err(SyncError::InvalidRemotePath("Remote path cannot be empty".to_string()))
    );
}

#[test]
fn normalization_resolves_segments() {
    assert_eq!(normal("sdcard/Music"), "/sdcard/Music");
    assert_eq!(normal("/sdcard//Music/"), "/sdcard/Music");
    assert_eq!(normal("/a/b/../../c"), "/c");
    assert_eq!(normal("/../.."), "/");
    assert_eq!(normal("../a"), "/a");
    assert_eq!(normal("."), "/");
    assert_eq!(normal(".."), "/");
    assert_eq!(normal("/a/./b/."), "/a/b");
    assert_eq!(normal("/a/.../b"), "/a/.../b");
    assert_eq!(normal("/a/.b/..c"), "/a/.b/..c");
    assert_eq!(normal("C:\\Users\\x"), "/C:/Users/x");
    assert_eq!(normal("/d\u{e9}j\u{e0}/vu"), "/d\u{e9}j\u{e0}/vu");
    assert_eq!(normal("/a b/c"), "/a b/c");
    assert_eq!(normal(" "), "/ ");
    assert_eq!(normal(" /sdcard/Music "), "/ /sdcard/Music ");
}

#[test]
fn normalization_is_idempotent() {
    for path in [
        "/", "///", "\\a\\./b/../c/", "sdcard/Music", "/a/b/../../c", "  /x/y  ", "..", "/a/.../b",
        "/sdcard/out", "a\\b\\..\\c", "/a /", " ", "/a/ /../b ",
    ] {
        let once = normal(path);
        assert_eq!(normal(&once), once);
    }
}

#[test]
fn white_space_is_what_unicode_says() {
    for c in [' ', '\t', '\n', '\r', '\u{b}', '\u{c}', '\u{85}', '\u{a0}', '\u{1680}', '\u{2000}', '\u{200a}', '\u{2028}', '\u{2029}', '\u{202f}', '\u{205f}', '\u{3000}'] {
        assert!(whitespace(c));
    }
    for c in ['a', '/', '\u{0}', '\u{8}', '\u{e}', '\u{1f}', '\u{200b}', '\u{feff}', '\u{180e}', '\u{2060}'] {
        assert!(!whitespace(c));
    }
    for n in 0..0x3100u32 {
        if let Some(c) = char::from_u32(n) {
            assert_eq!(whitespace(c), c.is_whitespace());
        }
    }
}

#[test]
fn path_join() {
    assert_eq!(build_remote_path("/", "x/y"), "/x/y");
    assert_eq!(build_remote_path("/root/", "x"), "/root/x");
}

#[test]
fn path_join_keeps_names_only() {
    assert_eq!(build_remote_path("/sdcard/out", ""), "/sdcard/out");
    assert_eq!(build_remote_path("/sdcard/out/", ""), "/sdcard/out/");
    assert_eq!(build_remote_path("/sdcard/out", "."), "/sdcard/out");
    assert_eq!(build_remote_path("/sdcard/out", "a/b/c.txt"), "/sdcard/out/a/b/c.txt");
    assert_eq!(build_remote_path("/sdcard/out///", "a"), "/sdcard/out/a");
    assert_eq!(build_remote_path("/sdcard", "./a/../b//c/"), "/sdcard/a/b/c");
    assert_eq!(build_remote_path("/", "/x"), "/x");
    assert_eq!(build_remote_path("//", "x"), "/x");
    assert_eq!(build_remote_path("rel", "x"), "rel/x");
    assert_eq!(build_remote_path("", "x"), "/x");
    assert_eq!(build_remote_path("/a", ".hidden/..x"), "/a/.hidden/..x");
}

#[test]
fn directory_paths_lose_their_trailing_slashes() {
    assert_eq!(normalize_remote_dir_path("/"), "/");
    assert_eq!(normalize_remote_dir_path("/a/"), "/a");
    assert_eq!(normalize_remote_dir_path("/a///"), "/a");
    assert_eq!(normalize_remote_dir_path("/a/b"), "/a/b");
    assert_eq!(normalize_remote_dir_path("//"), "");
    assert_eq!(normalize_remote_dir_path(""), "");
    assert_eq!(normalize_remote_dir_path("a/ "), "a/ ");
}

#[test]
fn depth_counts_the_names() {
    assert_eq!(directory_depth("/"), 0);
    assert_eq!(directory_depth(""), 0);
    assert_eq!(directory_depth("///"), 0);
    assert_eq!(directory_depth("/a"), 1);
    assert_eq!(directory_depth("a"), 1);
    assert_eq!(directory_depth("/a/b/c"), 3);
    assert_eq!(directory_depth("//a//b//"), 2);
    assert_eq!(directory_depth("/sdcard/out"), 2);
    assert_eq!(directory_depth("/a/./.."), 3);
}

#[test]
fn hidden_entries_are_skipped() {
    assert!(should_skip_entry(".git"));
    assert!(should_skip_entry("/home/u/.config"));
    assert!(should_skip_entry("a/.b"));
    assert!(should_skip_entry("a/.b/"));
    assert!(should_skip_entry("a/.b/."));
    assert!(should_skip_entry("..x"));
    assert!(should_skip_entry("..."));
    assert!(!should_skip_entry("a"));
    assert!(!should_skip_entry("a.b"));
    assert!(!should_skip_entry(".a/b"));
    assert!(!should_skip_entry(""));
    assert!(!should_skip_entry("/"));
    assert!(!should_skip_entry("."));
    assert!(!should_skip_entry(".."));
    assert!(!should_skip_entry("a/.."));
    assert!(!should_skip_entry("./a"));
}

#[test]
fn complaints_about_a_missing_file() {
    assert!(adb_missing_file("No such file or directory"));
    assert!(adb_missing_file("remote object '/x' NOT FOUND"));
    assert!(adb_missing_file("path does not exist"));
    assert!(adb_missing_file("failed to lstat '/x'"));
    assert!(adb_missing_file("Failed To Stat /x"));
    assert!(adb_missing_file("not found"));
    assert!(adb_missing_file("xxnot foundxx"));
    assert!(!adb_missing_file(""));
    assert!(!adb_missing_file("Permission denied"));
    assert!(!adb_missing_file("not  found"));
    assert!(!adb_missing_file("no such fil"));
    assert!(!adb_missing_file("failed to lsta"));
    assert!(!adb_missing_file("n\u{f6}t found"));
}

#[test]
fn the_local_path_is_trimmed() {
    assert_eq!(local_candidate("  /home/u/music \n"), "/home/u/music");
    assert_eq!(local_candidate("a b"), "a b");
    assert_eq!(local_candidate("   "), "");
}

fn probe(exists: bool, is_dir: bool, canonical: Result<&str, &str>) -> LocalProbe {
    LocalProbe {
        exists,
        is_dir,
        canonical: canonical.map(|s| s.to_string()).map_err(|s| s.to_string()),
    }
}

#[test]
fn the_local_root_must_be_a_directory_that_is_there() {
    assert_eq!(
        canonicalize_local_root(" music ", probe(true, true, Ok("/home/u/music"))),
        Ok("/home/u/music".to_string())
    );
    assert_eq!(
        canonicalize_local_root("  ", probe(true, true, Ok("/"))),
        Err(SyncError::InvalidLocalPath("Local path cannot be empty".to_string()))
    );
    assert_eq!(
        canonicalize_local_root(" nowhere ", probe(false, false, Err("gone"))),
        Err(SyncError::InvalidLocalPath("Local path 'nowhere' does not exist".to_string()))
    );
    assert_eq!(
        canonicalize_local_root("file.txt", probe(true, false, Ok("/file.txt"))),
        Err(SyncError::InvalidLocalPath("Local path 'file.txt' must be a directory".to_string()))
    );
    assert_eq!(
        canonicalize_local_root("music", probe(true, true, Err("permission denied"))),
        Err(SyncError::Io("permission denied".to_string()))
    );
}
