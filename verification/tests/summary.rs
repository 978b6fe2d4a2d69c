//! What is said of runs.

use kempt::artifacts::{VendorEntry, VendorOutcome};
use kempt::cache::CacheEntry;
use kempt::commands::FormatOutcome;
use kempt::reports::{report_cache, report_hook, report_init, report_upgrade, report_vendor};
use kempt::summary::{
    render_check_summary, report_changes, report_pruned, shell_escape, CheckContext,
    MAX_PER_FILE_SUGGESTION,
};
use kempt::upgrade::{Change, UpgradeOutcome};

// --- check summary ---

fn outcome_with(changed: &[&str], parse_errors: &str) -> FormatOutcome {
    let mut o = FormatOutcome::default();
    for p in changed {
        o.changed.insert(p);
    }
    o.parse_errors = parse_errors.to_string();
    o
}

#[test]
fn check_summary_clean_outcome_returns_no_lines() {
    let out = FormatOutcome::default();
    let summary = render_check_summary(&out, CheckContext::All);
    assert!(summary.is_empty());
}

#[test]
fn check_summary_files_only_suggests_kempt_format_all() {
    let out = outcome_with(&["a.kt", "b.kt"], "");
    let summary = render_check_summary(&out, CheckContext::All);
    assert!(
        summary[0].contains("2 files need formatting. Run `kempt format --all` to apply."),
        "got: {}",
        summary[0]
    );
}

#[test]
fn check_summary_singular_pluralizes_correctly() {
    let out = outcome_with(&["only.kt"], "");
    let summary = render_check_summary(&out, CheckContext::All);
    assert!(summary[0].contains("1 file needs formatting"));
}

#[test]
fn check_summary_staged_scope_suggests_staged_command() {
    let out = outcome_with(&["a.kt"], "");
    let summary = render_check_summary(&out, CheckContext::Staged);
    assert!(summary[0].contains("kempt format --staged"));
}

#[test]
fn check_summary_walk_scope_suggests_walk_command() {
    let out = outcome_with(&["a.kt"], "");
    let summary = render_check_summary(&out, CheckContext::Walk);
    assert!(summary[0].contains("kempt format --discovery=walk"));
}

#[test]
fn check_summary_hook_context_uses_multi_line_guidance() {
    let out = outcome_with(&["a.kt"], "");
    let summary = render_check_summary(&out, CheckContext::Hook);
    assert!(summary.iter().any(|l| l.contains("staged file")));
    assert!(summary.iter().any(|l| l.contains("kempt format --staged")));
    assert!(summary.iter().any(|l| l.contains("--no-verify")));
}

#[test]
fn check_summary_parse_errors_only_describes_them() {
    let out = outcome_with(&[], "Bad.kt:3:11: error: Expecting ')'");
    let summary = render_check_summary(&out, CheckContext::All);
    assert_eq!(
        summary,
        vec!["kempt: syntax errors prevent formatting (see above).".to_string()]
    );
}

#[test]
fn check_summary_mixed_failures_lists_both_steps() {
    let out = outcome_with(&["a.kt", "b.kt"], "Bad.kt:3:11: error: bad");
    let summary = render_check_summary(&out, CheckContext::All);
    assert!(summary[0].contains("2 files need formatting"));
    assert!(summary[0].contains("syntax errors"));
    assert!(summary.iter().any(|l| l.contains("Fix the syntax errors")));
    assert!(summary.iter().any(|l| l.contains("kempt format")));
}

#[test]
fn check_summary_includes_per_file_command_when_under_threshold() {
    let out = outcome_with(&["src/Foo.kt", "src/Bar.kt"], "");
    let summary = render_check_summary(&out, CheckContext::All);
    // Path list is included as a copy/pasteable command.
    let joined = summary.join("\n");
    assert!(
        joined.contains("kempt format src/Bar.kt src/Foo.kt"),
        "expected per-file command, got:\n{joined}"
    );
    assert!(joined.contains("Or to format just these files:"));
}

#[test]
fn check_summary_omits_per_file_command_above_threshold() {
    let many: Vec<String> = (0..MAX_PER_FILE_SUGGESTION + 1)
        .map(|i| format!("file_{i}.kt"))
        .collect();
    let refs: Vec<&str> = many.iter().map(String::as_str).collect();
    let out = outcome_with(&refs, "");
    let summary = render_check_summary(&out, CheckContext::All);
    let joined = summary.join("\n");
    assert!(
        !joined.contains("Or to format just these files"),
        "should suppress per-file command above threshold, got:\n{joined}"
    );
}

#[test]
fn check_summary_hook_context_skips_per_file_suggestion() {
    let out = outcome_with(&["a.kt", "b.kt"], "");
    let summary = render_check_summary(&out, CheckContext::Hook);
    let joined = summary.join("\n");
    assert!(!joined.contains("Or to format just these files"));
}

#[test]
fn check_summary_explicit_context_tells_user_to_swap_check_for_format() {
    let out = outcome_with(&["a.kt", "b.kt"], "");
    let summary = render_check_summary(&out, CheckContext::Explicit);
    let joined = summary.join("\n");
    assert!(joined.contains("Re-run with `format` instead of `check`"));
    assert!(
        !joined.contains("Or to format just these files"),
        "explicit context shouldn't list files back: {joined}"
    );
}

#[test]
fn check_summary_quotes_paths_with_spaces() {
    let out = outcome_with(&["src/has space.kt", "src/Plain.kt"], "");
    let summary = render_check_summary(&out, CheckContext::All);
    let joined = summary.join("\n");
    assert!(joined.contains("'src/has space.kt'"));
    assert!(joined.contains(" src/Plain.kt"));
}

#[test]
fn check_summary_does_not_print_paths_in_main_summary_line() {
    // The first line is the "N files need formatting" summary; that
    // line shouldn't include path text. A dedicated subsequent line
    // does, but only when allowed.
    let out = outcome_with(&["a/very/long/path/Foo.kt"], "");
    let summary = render_check_summary(&out, CheckContext::All);
    assert!(!summary[0].contains("Foo.kt"));
}

// --- shell_escape ---

#[test]
fn shell_escape_leaves_simple_paths_alone() {
    assert_eq!(shell_escape("src/Foo.kt"), "src/Foo.kt");
    assert_eq!(shell_escape("a/b/c/Bar.java"), "a/b/c/Bar.java");
}

#[test]
fn shell_escape_quotes_paths_with_spaces() {
    assert_eq!(shell_escape("with space.kt"), "'with space.kt'");
}

#[test]
fn shell_escape_escapes_embedded_single_quotes() {
    // POSIX-safe: end the quote, escape the apostrophe, restart the quote.
    assert_eq!(shell_escape("ain't.kt"), r#"'ain'\''t.kt'"#);
}

#[test]
fn shell_escape_quotes_glob_metachars() {
    assert_eq!(shell_escape("foo*.kt"), "'foo*.kt'");
    assert_eq!(shell_escape("foo?.kt"), "'foo?.kt'");
}

#[test]
fn shell_escape_quotes_the_empty_path() {
    assert_eq!(shell_escape(""), "''");
    assert_eq!(shell_escape("$HOME"), "'$HOME'");
    assert_eq!(shell_escape("a\\b"), "'a\\b'");
}

// --- reports ---

fn list(items: &[&str]) -> Vec<String> {
    items.iter().map(|s| s.to_string()).collect()
}

#[test]
fn changes_are_listed() {
    assert_eq!(report_changes(&outcome_with(&[], "")), ["kempt: nothing to do"]);
    assert_eq!(
        report_changes(&outcome_with(&["b", "a"], "")),
        ["kempt: changed 2 file(s)", "  a", "  b"]
    );
    assert_eq!(report_pruned(&vec![]), ["kempt: nothing to prune"]);
    assert_eq!(report_pruned(&list(&["/c/x"])), ["removed 1 file(s):", "  /c/x"]);
    assert_eq!(report_init(&vec![]), ["kempt: nothing to do (config already exists)"]);
    assert_eq!(report_init(&list(&["/r/a", "/r/b"])), ["created /r/a", "created /r/b"]);
    assert!(report_hook(0).is_empty());
    assert_eq!(report_hook(12), ["kempt: re-staged 12 file(s)"]);
}

#[test]
fn cache_listing_aligns_sizes() {
    assert_eq!(report_cache("/c", &vec![]), ["kempt: cache is empty (/c)"]);
    let entries = vec![
        CacheEntry { path: "/c/ktfmt-0.56.jar".into(), size: 2048 },
        CacheEntry { path: "/".into(), size: 1 },
    ];
    assert_eq!(
        report_cache("/c", &entries),
        [
            "/c:".to_string(),
            format!("  {:<32} 2.0 KiB", "ktfmt-0.56.jar"),
            format!("  {:<32} 1 B", "?"),
        ]
    );
}

#[test]
fn vendoring_shows_the_settings() {
    let mut outcome = VendorOutcome { entries: vec![], skipped: vec![] };
    assert_eq!(
        report_vendor(&outcome),
        ["kempt: nothing to vendor (no [ktfmt] or [gjf] in config)"]
    );
    outcome.skipped.push("gjf");
    assert_eq!(
        report_vendor(&outcome),
        ["kempt: [gjf] already uses `path = ...`, skipping"]
    );
    outcome.entries.push(VendorEntry {
        tool: "ktfmt",
        version: "0.56".into(),
        source: "/c/k.jar".into(),
        dest: "/r/bin/k.jar".into(),
        config_value: "bin/k.jar".into(),
    });
    assert_eq!(
        report_vendor(&outcome),
        [
            "kempt: [gjf] already uses `path = ...`, skipping",
            "vendored 1 artifact(s):",
            "  ktfmt 0.56 -> /r/bin/k.jar",
            "",
            "update .kempt.toml to point at the vendored copies:",
            "",
            "  [ktfmt]",
            "  path = \"bin/k.jar\"",
        ]
    );
}

#[test]
fn upgrades_are_reported() {
    let mut outcome = UpgradeOutcome::default();
    outcome.already_current.push("gjf");
    outcome.skipped.push("detekt: note".into());
    assert_eq!(
        report_upgrade(&outcome, false),
        [
            "kempt: detekt: note",
            "kempt: [gjf] already on the latest version",
            "kempt: nothing to upgrade",
        ]
    );
    let change = Change { tool: "ktfmt", from: "1".into(), to: "2".into() };
    let outcome = UpgradeOutcome { changes: vec![change], skipped: vec![], already_current: vec![] };
    assert_eq!(
        report_upgrade(&outcome, true),
        ["kempt: would update 1 tool(s):", "  [ktfmt] 1 -> 2", "", "Re-run without --dry-run to apply."]
    );
    assert_eq!(
        report_upgrade(&outcome, false)[3],
        "Run `kempt update` to download the new version(s) into the cache."
    );
}
