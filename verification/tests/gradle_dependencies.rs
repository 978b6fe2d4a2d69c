//! Gradle Dependencies Sorter.

use kempt::formatters::ToolOutput;
use kempt::gradle_dependencies::{args, collect_errors, compare_files, plan, run};

fn list(items: &[&str]) -> Vec<String> {
    items.iter().map(|s| s.to_string()).collect()
}

fn bytes(items: &[&str]) -> Vec<Vec<u8>> {
    items.iter().map(|s| s.as_bytes().to_vec()).collect()
}

fn output(code: i32, stdout: &str, stderr: &str) -> ToolOutput {
    ToolOutput {
        success: code == 0,
        code: Some(code),
        stdout: stdout.to_string(),
        stderr: stderr.to_string(),
    }
}

/// Sorts a file as the tool would, and complains as it would.
fn sort(file: &str, content: &str) -> (String, Option<String>) {
    if content.contains("PARSE_ERROR") {
        (content.to_string(), Some(format!("Parsing error: {file}")))
    } else if content.contains("UNSORTED") {
        (format!("{content}\n// sorted\n"), None)
    } else {
        (content.to_string(), None)
    }
}

fn sort_all(words: &[Vec<String>], contents: &[&str]) -> (Vec<ToolOutput>, Vec<Vec<u8>>) {
    let mut outputs = vec![];
    let mut after = vec![];
    for invocation in words {
        let mut stderr = String::new();
        for file in invocation.iter().filter(|w| !w.starts_with("--")) {
            let (sorted, error) = sort(file, contents[after.len()]);
            after.push(sorted.into_bytes());
            if let Some(e) = error {
                stderr.push_str(&e);
                stderr.push('\n');
            }
        }
        outputs.push(output(if stderr.is_empty() { 0 } else { 3 }, "", &stderr));
    }
    (outputs, after)
}

#[test]
fn blank_lines_enabled_needs_no_flag() {
    assert!(args(true).is_empty());
}

#[test]
fn blank_lines_disabled_passes_upstream_flag() {
    assert_eq!(args(false), list(&["--no-blank-lines"]));
}

#[test]
fn format_changes_only_unsorted_build_scripts() {
    let files = list(&["build.gradle.kts", "clean.gradle"]);
    let contents = ["UNSORTED\n", "SORTED\n"];
    let (outputs, after) = sort_all(&plan(true, "/repo", &files), &contents);

    let outcome = run(&files, false, &outputs, &bytes(&contents), &after, "", "/repo").unwrap();

    assert_eq!(outcome.changed.into_vec(), list(&["build.gradle.kts"]));
    assert!(outcome.errors.is_empty());
}

#[test]
fn check_reports_exact_changes_without_writing_repository_files() {
    let files = list(&["build.gradle.kts", "clean.gradle"]);
    let contents = ["UNSORTED\n", "SORTED\n"];
    let (outputs, after) = sort_all(&plan(true, "/tmp/copy", &files), &contents);

    let outcome =
        run(&files, true, &outputs, &bytes(&contents), &after, "/tmp/copy", "/repo").unwrap();

    assert_eq!(outcome.changed.into_vec(), list(&["build.gradle.kts"]));
}

#[test]
fn check_preserves_parse_errors_and_rewrites_temporary_paths() {
    let files = list(&["broken.gradle"]);
    let scratch = "/tmp/kempt-gradle-dependencies-1";
    let contents = ["PARSE_ERROR\n"];
    let (outputs, after) = sort_all(&plan(true, scratch, &files), &contents);

    let outcome = run(&files, true, &outputs, &bytes(&contents), &after, scratch, "/repo").unwrap();

    assert_eq!(outcome.changed.len(), 0);
    assert!(outcome.errors.contains("/repo/broken.gradle"));
    assert!(!outcome.errors.contains("kempt-gradle-dependencies-"));
}

#[test]
fn errors_stop_a_run_that_writes() {
    let files = list(&["a.gradle"]);
    let err = run(
        &files,
        false,
        &vec![output(3, "", "boom\n")],
        &bytes(&["a"]),
        &bytes(&["a"]),
        "",
        "/repo",
    )
    .err()
    .unwrap();
    assert_eq!(err.message, "Gradle Dependencies Sorter failed:\nboom");
}

#[test]
fn nothing_is_done_without_files() {
    assert!(plan(false, "/repo", &vec![]).is_empty());
    let outcome = run(&vec![], false, &vec![], &vec![], &vec![], "", "/repo").unwrap();
    assert_eq!(outcome.changed.len(), 0);
}

#[test]
fn invocations_name_absolute_files() {
    assert_eq!(
        plan(false, "/repo", &list(&["a", "b/c"])),
        vec![list(&["--no-blank-lines", "/repo/a", "/repo/b/c"])]
    );
}

#[test]
fn silent_failures_tell_the_exit_code() {
    let outputs = vec![output(0, "x", ""), output(7, "", "WARNING: y"), output(1, "o", "e")];
    assert_eq!(collect_errors(&outputs), "exit 7\no\ne");
}

#[test]
fn changed_files_come_in_order() {
    let files = list(&["c", "a", "b"]);
    let changed = compare_files(&files, &bytes(&["1", "1", "1"]), &bytes(&["2", "2", "1"]));
    assert_eq!(changed.into_vec(), list(&["a", "c"]));
}
