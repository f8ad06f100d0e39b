use gdext_descriptor::banner::PackageInfo;
use gdext_descriptor::detect::{lookup_entry, needs_update, parse_section_to_map};
use gdext_descriptor::error::SyncError;
use gdext_descriptor::document::{
    find_section_end, find_section_start, find_setting_in_section, make_header,
};
use gdext_descriptor::sync::{
    ensure_configuration_section, ensure_libraries_section, ensure_section_setting,
    make_library_entry, synchronize,
};
use gdext_descriptor::target::{resource_path, BuildTarget};
use gdext_descriptor::text::{is_header_line, is_inert_line, parse_key_value, same_text, trim_quotes, trim_text};

fn doc(lines: &[&str]) -> Vec<String> {
    lines.iter().map(|s| s.to_string()).collect()
}

fn target(os: &str, arch: &str, profile: &str) -> BuildTarget {
    BuildTarget { os: os.to_string(), arch: arch.to_string(), profile: profile.to_string() }
}

#[test]
fn trims_whitespace_and_quotes() {
    assert_eq!(trim_text("  \t[libraries] \u{3000}"), "[libraries]");
    assert_eq!(trim_text("   "), "");
    assert_eq!(trim_quotes("\"\"res://a\"\""), "res://a");
    assert_eq!(trim_quotes("plain"), "plain");
    assert!(same_text("abc", "abc"));
    assert!(!same_text("abc", "abd"));
}

#[test]
fn key_value_splits_on_first_equals() {
    assert_eq!(parse_key_value("  a = b=c  "), Some(("a", "b=c")));
    assert_eq!(parse_key_value("k=\"v\""), Some(("k", "\"v\"")));
    assert_eq!(parse_key_value("no equals here"), None);
    assert_eq!(parse_key_value("=v"), Some(("", "v")));
}

#[test]
fn classifies_lines() {
    assert!(is_inert_line(""));
    assert!(is_inert_line("   "));
    assert!(is_inert_line("  ; note"));
    assert!(is_inert_line("# note"));
    assert!(!is_inert_line("a=b"));
    assert!(is_header_line(" [anything] "));
    assert!(!is_header_line("[open"));
    assert!(!is_header_line("["));
    assert_eq!(make_header("libraries"), "[libraries]");
}

#[test]
fn locates_sections() {
    let d = doc(&["[configuration]", "a=1", "  [libraries]  ", "x=1", "[libraries]", "[other]"]);
    assert_eq!(find_section_start(&d, "configuration"), Some(0));
    assert_eq!(find_section_start(&d, "libraries"), Some(2));
    assert_eq!(find_section_start(&d, "missing"), None);
    assert_eq!(find_section_end(&d, 0), 2);
    assert_eq!(find_section_end(&d, 2), 4);
    assert_eq!(find_section_end(&d, 5), 6);
    assert_eq!(find_section_end(&d, 100), 6);
    let empty: Vec<String> = Vec::new();
    assert_eq!(find_section_start(&empty, "libraries"), None);
    assert_eq!(find_section_end(&empty, 0), 0);
}

#[test]
fn resolves_settings_skipping_comments() {
    let d = doc(&["[libraries]", "; k=\"c\"", "", "# k=x", " k = \"v1\" ", "k=\"v2\"", "[next]", "k=3"]);
    assert_eq!(find_setting_in_section(&d, 0, "k"), Some((4, "v1".to_string())));
    assert_eq!(find_setting_in_section(&d, 0, "other"), None);
    assert_eq!(find_setting_in_section(&d, 6, "k"), Some((7, "3".to_string())));
}

#[test]
fn idempotent_synchronization() {
    let start = doc(&["[configuration]", "reloadable=\"false\"", "", "[libraries]", "a.b.c=\"x\""]);
    let mut once = start.clone();
    ensure_libraries_section(&mut once, "linux.debug.x86_64", "res://a/librust.so");
    ensure_configuration_section(&mut once);
    let mut twice = once.clone();
    ensure_libraries_section(&mut twice, "linux.debug.x86_64", "res://a/librust.so");
    ensure_configuration_section(&mut twice);
    assert_eq!(once, twice);
    assert_eq!(once.join("\n"), twice.join("\n"));
}

#[test]
fn creates_missing_section_after_one_blank_line() {
    let mut d = doc(&["[configuration]", "a=1"]);
    ensure_libraries_section(&mut d, "t", "p");
    assert_eq!(d, doc(&["[configuration]", "a=1", "", "[libraries]", "t=\"p\""]));

    let mut d = doc(&["[configuration]", "a=1", ""]);
    ensure_libraries_section(&mut d, "t", "p");
    assert_eq!(d, doc(&["[configuration]", "a=1", "", "[libraries]", "t=\"p\""]));

    let mut d: Vec<String> = Vec::new();
    ensure_libraries_section(&mut d, "t", "\"p\"");
    assert_eq!(d, doc(&["[libraries]", "t=\"p\""]));
}

#[test]
fn updates_in_place() {
    let mut d = doc(&["[libraries]", "a=\"1\"", "t=\"old\"", "b=\"2\"", "[other]", "t=\"keep\""]);
    ensure_libraries_section(&mut d, "t", "new");
    assert_eq!(d, doc(&["[libraries]", "a=\"1\"", "t=\"new\"", "b=\"2\"", "[other]", "t=\"keep\""]));
}

#[test]
fn inserts_at_section_end() {
    let mut d = doc(&["top", "[libraries]", "a=\"1\"", "[other]", "z=1"]);
    ensure_libraries_section(&mut d, "t", "p");
    assert_eq!(d, doc(&["top", "[libraries]", "a=\"1\"", "t=\"p\"", "[other]", "z=1"]));

    let mut d = doc(&["[configuration]", "entry_symbol=\"x\""]);
    ensure_section_setting(&mut d, "configuration", "reloadable", "reloadable=\"true\"");
    assert_eq!(d, doc(&["[configuration]", "entry_symbol=\"x\"", "reloadable=\"true\""]));
}

#[test]
fn comments_and_blanks_are_never_overwritten() {
    let mut d = doc(&["[libraries]", "; t=\"c\"", "", "# t=\"d\"", "[other]"]);
    ensure_libraries_section(&mut d, "t", "p");
    assert_eq!(d, doc(&["[libraries]", "; t=\"c\"", "", "# t=\"d\"", "t=\"p\"", "[other]"]));
}

#[test]
fn configuration_section_gets_fixed_settings() {
    let mut d = doc(&["[configuration]", "; keep", "reloadable=\"false\"", "extra=1"]);
    ensure_configuration_section(&mut d);
    assert_eq!(
        d,
        doc(&[
            "[configuration]",
            "; keep",
            "reloadable=\"true\"",
            "extra=1",
            "entry_symbol=\"gdext_rust_init\"",
            "compatibility_minimum=\"4.5\"",
        ])
    );
}

#[test]
fn detects_needed_updates() {
    let d = doc(&["[libraries]", "linux.debug.x86_64=\"res://a/librust.so\""]);
    assert_eq!(needs_update(Some(&d), "linux.debug.x86_64", "res://a/librust.so"), Ok(false));
    assert_eq!(needs_update(Some(&d), "linux.debug.x86_64", "res://b/librust.so"), Ok(true));
    assert_eq!(needs_update(Some(&d), "windows.debug.x86_64", "res://a/librust.so"), Ok(true));
    assert_eq!(needs_update(None, "linux.debug.x86_64", "res://a/librust.so"), Ok(true));
    assert_eq!(needs_update(Some(&d), "linux.debug.x86_64", "res://a/librust.so/"), Ok(true));
}

#[test]
fn detector_reads_the_written_document() {
    let mut d: Vec<String> = Vec::new();
    synchronize(&mut d, "linux.debug.x86_64", "res://a/librust.so");
    assert_eq!(needs_update(Some(&d), "linux.debug.x86_64", "res://a/librust.so"), Ok(false));
}

#[test]
fn malformed_library_lines_are_errors() {
    let d = doc(&["[libraries]", "a=1", "garbage"]);
    assert_eq!(parse_section_to_map(&d), Err(SyncError::MalformedLine { line: 2 }));
    let d = doc(&["[libraries]", "a=1", "[other]", "b=2"]);
    assert_eq!(needs_update(Some(&d), "a", "1"), Err(SyncError::MalformedLine { line: 2 }));
    let d = doc(&["garbage", "[libraries]", "; c", "", "[libraries]", "a = \"1\""]);
    assert_eq!(parse_section_to_map(&d), Ok(vec![("a".to_string(), "1".to_string())]));
}

#[test]
fn later_entries_override_earlier_ones() {
    let d = doc(&["[libraries]", "a=\"1\"", "b=\"2\"", "a=\"3\""]);
    let entries = parse_section_to_map(&d).unwrap();
    assert_eq!(entries.len(), 3);
    assert_eq!(lookup_entry(&entries, "a"), Some("3".to_string()));
    assert_eq!(lookup_entry(&entries, "b"), Some("2".to_string()));
    assert_eq!(lookup_entry(&entries, "c"), None);
    assert_eq!(needs_update(Some(&d), "a", "1"), Ok(true));
    assert_eq!(needs_update(Some(&d), "a", "3"), Ok(false));
}

#[test]
fn end_to_end_from_empty_document() {
    let t = target("windows", "x86_64", "debug");
    let triplet = t.triplet();
    assert_eq!(triplet, "windows.debug.x86_64");
    let mut d: Vec<String> = Vec::new();
    synchronize(&mut d, &triplet, "res://addons/x/debug/rust.dll");
    assert_eq!(
        d,
        doc(&[
            "[configuration]",
            "entry_symbol=\"gdext_rust_init\"",
            "compatibility_minimum=\"4.5\"",
            "reloadable=\"true\"",
            "",
            "[libraries]",
            "windows.debug.x86_64=\"res://addons/x/debug/rust.dll\"",
        ])
    );
}

#[test]
fn names_build_targets() {
    assert_eq!(target("macos", "aarch64", "release").triplet(), "macos.release");
    assert_eq!(target("android", "aarch64", "debug").triplet(), "android.debug.arm64");
    assert_eq!(target("android", "x86_64", "debug").triplet(), "android.debug.x86_64");
    assert_eq!(target("linux", "aarch64", "debug").triplet(), "linux.debug.aarch64");
    assert_eq!(target("windows", "x86_64", "debug").library_file_name(), Ok("rust.dll".to_string()));
    assert_eq!(target("macos", "aarch64", "debug").library_file_name(), Ok("librust.dylib".to_string()));
    assert_eq!(target("android", "aarch64", "debug").library_file_name(), Ok("librust.so".to_string()));
    assert_eq!(target("linux", "x86_64", "debug").library_file_name(), Err(SyncError::UnsupportedTarget));
}

#[test]
fn builds_resource_paths() {
    let cs = doc(&["addons", "x", "debug", "build", "out"]);
    assert_eq!(resource_path(&cs, "rust.dll"), "res://addons/x/debug/rust.dll");
    let cs = doc(&["target", "release", "debug"]);
    assert_eq!(resource_path(&cs, "librust.so"), "res://target/release/librust.so");
    let cs = doc(&["a", "b"]);
    assert_eq!(resource_path(&cs, "f"), "res://a/b/f");
    assert_eq!(make_library_entry("k", "\"v\""), "k=\"v\"");
}

#[test]
fn composes_banner() {
    let info = PackageInfo {
        name: "rust".to_string(),
        version: "0.1.0".to_string(),
        target_triple: "x86_64-pc-windows-msvc".to_string(),
        authors: "me".to_string(),
        description: "demo".to_string(),
        build_timestamp: "2024-01-01".to_string(),
    };
    assert_eq!(
        info.banner(),
        "[b][color=green]rust v0.1.0-x86_64-pc-windows-msvc[/color][/b]\n[b]作者:[/b] me\n[b]描述:[/b] demo\n[b]构建时间:[/b] 2024-01-01"
    );
}
