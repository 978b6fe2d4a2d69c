//! The passes over one file.

use kempt::config::ResolvedHeader;
use kempt::license::SourceKind;
use kempt::pipeline::{
    describe_bad_exclude, process_content, FileReport, HeaderError, HeaderSpec, PipelineReport,
};
use kempt::snapshot::{FileState, FileTexts};
use kempt::whitespace;

fn ws_off() -> whitespace::Options {
    whitespace::Options::default()
}

fn ws_on() -> whitespace::Options {
    whitespace::Options {
        strip_trailing: true,
        final_newline: true,
    }
}

#[test]
fn process_inserts_header_when_missing() {
    let (out, r) = process_content(
        "package foo\n",
        SourceKind::Kotlin,
        Some(("// (c) 2026\n", "(c)")),
        ws_off(),
    );
    assert!(r.header_added);
    assert!(out.starts_with("// (c) 2026"));
}

#[test]
fn process_skips_header_when_present() {
    let (_out, r) = process_content(
        "// (c) 2025\npackage foo\n",
        SourceKind::Kotlin,
        Some(("// (c) 2026\n", "(c)")),
        ws_off(),
    );
    assert!(!r.header_added);
}

#[test]
fn process_fixes_whitespace_when_dirty() {
    let (out, r) = process_content("package foo   \n", SourceKind::Kotlin, None, ws_on());
    assert!(r.whitespace_fixed);
    assert_eq!(out, "package foo\n");
}

#[test]
fn process_clean_input_no_changes() {
    let (out, r) = process_content("package foo\n", SourceKind::Kotlin, None, ws_on());
    assert!(!r.changed());
    assert_eq!(out, "package foo\n");
}

#[test]
fn process_combines_steps() {
    let (out, r) = process_content(
        "package foo   \n",
        SourceKind::Kotlin,
        Some(("// h\n", "// h")),
        ws_on(),
    );
    assert!(r.header_added);
    assert!(r.whitespace_fixed);
    assert!(out.starts_with("// h\n"));
    assert!(!out.contains("foo   "));
}

#[test]
fn process_with_only_strip_trailing_leaves_missing_newline_alone() {
    let opts = whitespace::Options {
        strip_trailing: true,
        final_newline: false,
    };
    let (out, r) = process_content("foo   ", SourceKind::Kotlin, None, opts);
    assert!(r.whitespace_fixed);
    // Stripped trailing spaces but did not add a final newline.
    assert_eq!(out, "foo");
}

#[test]
fn process_with_only_final_newline_leaves_trailing_alone() {
    let opts = whitespace::Options {
        strip_trailing: false,
        final_newline: true,
    };
    let (out, r) = process_content("foo   ", SourceKind::Kotlin, None, opts);
    assert!(r.whitespace_fixed);
    // Added newline but kept the trailing whitespace.
    assert_eq!(out, "foo   \n");
}

#[test]
fn report_records_only_changed_files() {
    let mut rep = PipelineReport::default();
    rep.record(
        "a.kt",
        &FileReport {
            header_added: true,
            whitespace_fixed: false,
        },
    );
    rep.record("b.kt", &FileReport::default());
    assert_eq!(rep.changed, vec!["a.kt".to_string()]);
}

fn header_spec_with_excludes(patterns: &[&str]) -> HeaderSpec {
    let mut files = FileTexts::new();
    files.note("/repo/header.txt".into(), FileState::Text("// (c) ${YEAR}\n".into()));
    files.note("/repo/excludes.txt".into(), FileState::Text(patterns.join("\n")));
    let resolved = ResolvedHeader {
        file: "header.txt".into(),
        excludes: Some("excludes.txt".into()),
    };
    HeaderSpec::load(&resolved, "/repo", &files, 2026).unwrap()
}

#[test]
fn excludes_glob_basename_pattern_matches_nested_path() {
    // Regression: `**/Foo.kt` was previously stored as a literal PathBuf
    // and only matched the literal string "**/Foo.kt", so deeply-nested
    // files were never excluded.
    let spec = header_spec_with_excludes(&["**/AbstractMapFactory.kt"]);
    assert!(spec.is_excluded("runtime/src/commonMain/kotlin/dev/zacsweers/metro/internal/AbstractMapFactory.kt"));
    assert!(spec.is_excluded("AbstractMapFactory.kt"));
    assert!(!spec.is_excluded("runtime/src/commonMain/kotlin/dev/zacsweers/metro/internal/Other.kt"));
}

#[test]
fn excludes_glob_directory_pattern() {
    let spec = header_spec_with_excludes(&["**/src/test/data/**"]);
    assert!(spec.is_excluded("compiler/src/test/data/foo.kt"));
    assert!(spec.is_excluded("compiler/src/test/data/nested/bar.kt"));
    assert!(!spec.is_excluded("compiler/src/main/kotlin/foo.kt"));
}

#[test]
fn excludes_skips_blank_and_comment_lines() {
    let spec = header_spec_with_excludes(&["# header comment", "", "**/Foo.kt", "  # another"]);
    assert!(spec.is_excluded("a/b/Foo.kt"));
}

#[test]
fn excludes_invalid_glob_errors_with_helpful_message() {
    let mut files = FileTexts::new();
    files.note("/repo/header.txt".into(), FileState::Text("// (c) ${YEAR}\n".into()));
    files.note("/repo/excludes.txt".into(), FileState::Text("[bad".into()));
    let resolved = ResolvedHeader {
        file: "header.txt".into(),
        excludes: Some("excludes.txt".into()),
    };
    let err = HeaderSpec::load(&resolved, "/repo", &files, 2026).err().unwrap();
    assert!(err.message().contains("[bad"));
}

fn load(template: Option<FileState>, excludes: Option<FileState>) -> Result<HeaderSpec, HeaderError> {
    let mut files = FileTexts::new();
    if let Some(t) = template {
        files.note("/repo/header.txt".into(), t);
    }
    if let Some(e) = excludes {
        files.note("/repo/excludes.txt".into(), e);
    }
    let resolved = ResolvedHeader {
        file: "header.txt".into(),
        excludes: Some("excludes.txt".into()),
    };
    HeaderSpec::load(&resolved, "/repo", &files, 2026)
}

#[test]
fn unreadable_header_files_are_errors() {
    let text = || Some(FileState::Text("// (c) ${YEAR}\n".into()));
    let err = load(Some(FileState::Missing), text()).err().unwrap();
    assert!(matches!(err, HeaderError::ReadTemplate { .. }));
    assert!(err.message().contains("/repo/header.txt"));
    let err = load(Some(FileState::Unreadable("denied".into())), text()).err().unwrap();
    assert!(err.message().contains("denied"));
    let err = load(text(), Some(FileState::Unreadable("denied".into()))).err().unwrap();
    assert!(matches!(err, HeaderError::ReadExcludes { .. }));
    assert_eq!(err.message(), "read /repo/excludes.txt: denied");
    let err = load(Some(FileState::Missing), None).err().unwrap();
    assert_eq!(
        err.message(),
        "read license header template /repo/header.txt: No such file or directory (os error 2)"
    );
}

#[test]
fn bad_excludes_are_printed_with_escapes() {
    let template = Some(FileState::Text("// (c) ${YEAR}\n".into()));
    let err = load(template, Some(FileState::Text("[\"\\".into()))).err().unwrap();
    let words = "invalid exclude glob \"[\\\"\\\\\" in /repo/excludes.txt: ";
    assert!(err.message().starts_with(words), "{}", err.message());
    assert_eq!(describe_bad_exclude("\"[\"", "x.txt", "open"), "invalid exclude glob \"[\" in x.txt: open");
}

#[test]
fn headers_without_a_final_newline_are_recognized_too() {
    let header = Some(("// (c) 2026 ", "(c) 2026"));
    let (once, r) = process_content("package foo\n\n", SourceKind::Kotlin, header, ws_on());
    assert!(r.header_added && r.whitespace_fixed);
    assert_eq!(once, "// (c) 2026 package foo\n");
    let (twice, r) = process_content(&once, SourceKind::Kotlin, header, ws_on());
    assert!(!r.changed());
    assert_eq!(twice, once);
}

#[test]
fn loaded_header_is_rendered_and_marked() {
    let spec = load(
        Some(FileState::Text("// (c) ${YEAR} me\n// all rights reserved\n".into())),
        Some(FileState::Text("".into())),
    )
    .ok()
    .unwrap();
    assert_eq!(spec.rendered, "// (c) 2026 me\n// all rights reserved\n");
    assert_eq!(spec.marker, "// all rights reserved");
    assert!(!spec.is_excluded("a.kt"));
}

#[test]
fn processing_twice_changes_nothing_more() {
    let header = Some(("// (c) 2026 me\n// all rights\n", "// all rights"));
    for content in ["", "package a  \n", "x", "// all rights\n"] {
        for ws in [ws_on(), ws_off()] {
            let (once, _) = process_content(content, SourceKind::Kotlin, header, ws);
            let (twice, report) = process_content(&once, SourceKind::Kotlin, header, ws);
            assert_eq!(once, twice);
            assert!(!report.changed());
        }
    }
}
