use aw_watcher_steam::path::{components, native_style, starts_with, style_for, PathStyle};

fn unix(p: &str) -> Vec<String> {
    components(PathStyle::Unix, p).into_iter().map(|c| c.into_iter().collect()).collect()
}

fn windows(p: &str) -> Vec<String> {
    components(PathStyle::Windows, p).into_iter().map(|c| c.into_iter().collect()).collect()
}

#[test]
fn components_of_absolute_path() {
    assert_eq!(unix("/etc/passwd"), vec!["/", "etc", "passwd"]);
    assert_eq!(unix("/etc//passwd/"), vec!["/", "etc", "passwd"]);
    assert_eq!(unix("/a/./b"), vec!["/", "a", "b"]);
    assert_eq!(unix("/a/../b"), vec!["/", "a", "..", "b"]);
}

#[test]
fn components_of_relative_path() {
    assert_eq!(unix("./a"), vec![".", "a"]);
    assert_eq!(unix("."), vec!["."]);
    assert_eq!(unix("a/."), vec!["a"]);
    assert_eq!(unix(""), Vec::<String>::new());
    assert_eq!(unix(".hidden/x"), vec![".hidden", "x"]);
}

#[test]
fn unix_backslash_is_an_ordinary_character() {
    assert_eq!(unix("C:\\Games\\x.exe"), vec!["C:\\Games\\x.exe"]);
}

#[test]
fn starts_with_whole_components_only() {
    let u = PathStyle::Unix;
    assert!(starts_with(u, "/etc/passwd", "/etc"));
    assert!(starts_with(u, "/etc/passwd", "/etc/"));
    assert!(starts_with(u, "/etc/passwd", "/etc/passwd"));
    assert!(starts_with(u, "/etc/passwd", "/etc/passwd/"));
    assert!(!starts_with(u, "/etc/passwd", "/e"));
    assert!(!starts_with(u, "/etc/passwd.txt", "/etc/passwd"));
    assert!(starts_with(u, "/anything", ""));
    assert!(!starts_with(u, "relative/x", "/"));
}

#[test]
fn windows_drive_paths() {
    assert_eq!(windows("C:\\Games\\X\\x.exe"), vec!["\\DC", "\\", "Games", "X", "x.exe"]);
    assert_eq!(windows("c:/Games"), vec!["\\DC", "\\", "Games"]);
    assert_eq!(windows("C:Games"), vec!["\\DC", "Games"]);
    assert_eq!(windows("C:"), vec!["\\DC"]);
    assert_eq!(windows("\\Games\\.\\x"), vec!["\\", "Games", "x"]);
    assert_eq!(windows(".\\x"), vec![".", "x"]);
}

#[test]
fn windows_unc_and_device_paths() {
    assert_eq!(windows("\\\\server\\share\\dir"), vec!["\\Userver\\share", "\\", "dir"]);
    assert_eq!(windows("\\\\server\\share"), vec!["\\Userver\\share", "\\"]);
    assert_eq!(windows("\\\\server"), vec!["\\", "server"]);
    assert_eq!(windows("\\\\.\\COM1"), vec!["\\NCOM1", "\\"]);
}

#[test]
fn windows_verbatim_paths() {
    assert_eq!(windows("\\\\?\\C:\\Games\\.\\x"), vec!["\\EC", "\\", "Games", ".", "x"]);
    assert_eq!(windows("\\\\?\\C:\\a/b"), vec!["\\EC", "\\", "a/b"]);
    assert_eq!(windows("\\\\?\\pictures\\cat"), vec!["\\Vpictures", "\\", "cat"]);
    assert_eq!(windows("\\\\?\\UNC\\server\\share\\x"), vec!["\\Wserver\\share", "\\", "x"]);
}

#[test]
fn windows_starts_with() {
    let w = PathStyle::Windows;
    assert!(starts_with(w, "c:\\Games\\X\\x.exe", "C:\\Games"));
    assert!(starts_with(w, "C:\\Games\\X\\x.exe", "C:/Games/X/"));
    assert!(!starts_with(w, "C:\\games\\x.exe", "C:\\Games"));
    assert!(!starts_with(w, "C:\\Games\\x.exe", "C:Games"));
    assert!(!starts_with(w, "D:\\Games\\x.exe", "C:\\Games"));
    assert!(!starts_with(w, "\\\\?\\C:\\Games\\x.exe", "C:\\Games"));
}

#[test]
fn native_style_follows_the_platform_separator() {
    assert_eq!(native_style() == PathStyle::Windows, std::path::MAIN_SEPARATOR == '\\');
}

#[test]
fn windows_drive_letter_case_does_not_matter() {
    assert_eq!(windows("c:\\Games\\x.exe"), windows("C:\\Games\\x.exe"));
    assert_ne!(windows("C:\\games\\x.exe"), windows("C:\\Games\\x.exe"));
}

#[test]
fn windows_drive_relative_current_dir() {
    assert_eq!(windows("C:.\\foo"), vec!["\\DC", ".", "foo"]);
    assert_eq!(windows("C:."), vec!["\\DC", "."]);
    assert_eq!(windows("C:..\\foo"), vec!["\\DC", "..", "foo"]);
    assert_ne!(windows("C:.\\foo"), windows("C:foo"));
    assert_eq!(windows("C:\\.\\foo"), vec!["\\DC", "\\", "foo"]);
}

#[test]
fn style_for_follows_the_separator() {
    assert_eq!(style_for(true), PathStyle::Windows);
    assert_eq!(style_for(false), PathStyle::Unix);
}
