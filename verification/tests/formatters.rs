//! Command lines of the formatters and their output.

use kempt::config::{GjfStyle, KtfmtStyle};
use kempt::formatters::{
    argfile_invocation, argfile_text, batched_invocations, build_command, chunk_files, exit_code,
    filter_jvm_noise, formatter_failure, gjf_args, interpret_check, interpret_run, jvm_flags,
    ktfmt_args, CheckRun, Invoker, ToolOutput, MAX_ARG_BYTES,
};

fn strs(v: &[String]) -> Vec<&str> {
    v.iter().map(|s| s.as_str()).collect()
}

fn output(code: Option<i32>, stdout: &str, stderr: &str) -> ToolOutput {
    ToolOutput {
        success: code == Some(0),
        code,
        stdout: stdout.to_string(),
        stderr: stderr.to_string(),
    }
}

// --- arguments ---

#[test]
fn ktfmt_args_default_style_is_google() {
    let a = ktfmt_args(KtfmtStyle::Google, false);
    assert_eq!(a[0], "--google-style");
    assert_eq!(a[1], "--quiet");
    assert_eq!(a.len(), 2);
    assert_eq!(KtfmtStyle::default(), KtfmtStyle::Google);
}

#[test]
fn ktfmt_args_kotlinlang_style() {
    let a = ktfmt_args(KtfmtStyle::Kotlinlang, false);
    assert_eq!(a[0], "--kotlinlang-style");
}

#[test]
fn ktfmt_args_meta_style() {
    let a = ktfmt_args(KtfmtStyle::Meta, false);
    assert_eq!(a[0], "--meta-style");
}

#[test]
fn ktfmt_args_check_adds_dry_run_and_exit_flag() {
    let a = ktfmt_args(KtfmtStyle::Google, true);
    assert!(strs(&a).contains(&"--dry-run"));
    assert!(strs(&a).contains(&"--set-exit-if-changed"));
}

#[test]
fn ktfmt_args_format_mode_omits_dry_run() {
    let a = ktfmt_args(KtfmtStyle::Google, false);
    assert!(!strs(&a).contains(&"--dry-run"));
}

#[test]
fn gjf_args_default_style_omits_aosp_flag() {
    let a = gjf_args(GjfStyle::Google, false);
    assert!(!strs(&a).contains(&"--aosp"));
    assert!(strs(&a).contains(&"--replace"));
    assert_eq!(GjfStyle::default(), GjfStyle::Google);
}

#[test]
fn gjf_args_aosp_includes_flag() {
    let a = gjf_args(GjfStyle::Aosp, false);
    assert_eq!(a[0], "--aosp");
}

#[test]
fn gjf_args_check_uses_dry_run_not_replace() {
    let a = gjf_args(GjfStyle::Google, true);
    assert!(strs(&a).contains(&"--dry-run"));
    assert!(strs(&a).contains(&"--set-exit-if-changed"));
    assert!(!strs(&a).contains(&"--replace"));
}

#[test]
fn jvm_flags_includes_xmx_and_add_opens() {
    let f = jvm_flags();
    assert!(f.iter().any(|x| x.starts_with("-Xmx")));
    assert!(f.iter().any(|x| x.contains("java.base/java.util")));
    assert!(f.iter().any(|x| x.contains("jdk.compiler/com.sun.tools.javac.api")));
}

#[test]
fn jars_run_on_the_jvm_and_binaries_by_themselves() {
    let jar = Invoker::Jar("/c/k.jar".into());
    let words = build_command(&jar, Some("/usr/bin/java".into())).unwrap();
    assert_eq!(words[0], "/usr/bin/java");
    assert_eq!(&words[1..words.len() - 2], &jvm_flags()[..]);
    assert_eq!(&words[words.len() - 2..], ["-jar", "/c/k.jar"]);
    assert!(build_command(&jar, None).unwrap_err().message.contains("`java` not found"));
    let native = Invoker::Native("/c/gjf".into());
    assert_eq!(build_command(&native, None).unwrap(), ["/c/gjf"]);
}

// --- chunks ---

fn paths(items: &[&str]) -> Vec<String> {
    items.iter().map(|s| s.to_string()).collect()
}

#[test]
fn chunk_files_empty_input_yields_no_chunks() {
    let v: Vec<String> = vec![];
    assert!(chunk_files(&v, 100).is_empty());
}

#[test]
fn chunk_files_fits_in_one_chunk_under_budget() {
    let v = paths(&["a.kt", "b.kt", "c.kt"]); // ~5 bytes each
    let chunks = chunk_files(&v, 100);
    assert_eq!(chunks.len(), 1);
    assert_eq!(chunks[0].len(), 3);
}

#[test]
fn chunk_files_splits_when_budget_exceeded() {
    // Each path is "aaaaaaaaaa" (10 chars) -> 11 bytes per file.
    // Budget 22 bytes fits 2 paths per chunk.
    let v: Vec<String> = (0..5).map(|_| "aaaaaaaaaa".to_string()).collect();
    let chunks = chunk_files(&v, 22);
    assert_eq!(chunks.len(), 3);
    assert_eq!(chunks[0].len(), 2);
    assert_eq!(chunks[1].len(), 2);
    assert_eq!(chunks[2].len(), 1);
}

#[test]
fn chunk_files_single_file_larger_than_budget_gets_own_chunk() {
    let v = paths(&["this/is/a/very/long/path/that/exceeds/budget.kt"]);
    let chunks = chunk_files(&v, 5); // budget smaller than the path
    assert_eq!(chunks.len(), 1);
    assert_eq!(chunks[0].len(), 1);
}

#[test]
fn chunk_files_preserves_order_across_chunks() {
    let v = paths(&["a", "b", "c", "d", "e"]);
    // Each path is 2 bytes. Budget 4 fits 2 paths per chunk.
    let chunks = chunk_files(&v, 4);
    let flat: Vec<&String> = chunks.iter().flat_map(|c| c.iter()).collect();
    assert_eq!(flat.len(), 5);
    assert_eq!(flat[0], "a");
    assert_eq!(flat[4], "e");
}

#[test]
fn chunk_files_counts_bytes() {
    // Two bytes each, and one for the space.
    let v = paths(&["é", "é", "é"]);
    assert_eq!(chunk_files(&v, 5).len(), 3);
    assert_eq!(chunk_files(&v, 6).len(), 2);
}

// --- invocations ---

#[test]
fn run_batched_with_no_files_does_not_spawn() {
    let base = paths(&["--google-style"]);
    assert!(batched_invocations(&base, &vec![], MAX_ARG_BYTES).is_empty());
}

#[test]
fn run_argfile_with_no_files_does_not_spawn() {
    let base = paths(&["--replace"]);
    assert_eq!(argfile_invocation(&base, &vec![], "/tmp/list"), None);
}

#[test]
fn run_native_with_no_files_does_not_spawn() {
    // The files decide, not how the formatter is started.
    let native = Invoker::Native("/definitely/not/a/binary".into());
    assert!(build_command(&native, None).is_ok());
    assert_eq!(argfile_invocation(&paths(&["--replace"]), &vec![], "/tmp/list"), None);
}

#[test]
fn batches_repeat_the_fixed_arguments() {
    let base = paths(&["-q"]);
    // Three bytes go to the fixed argument, which leaves four.
    let batches = batched_invocations(&base, &paths(&["a", "b", "c"]), 7);
    assert_eq!(batches, vec![paths(&["-q", "a", "b"]), paths(&["-q", "c"])]);
    // Nothing is left for files, but they go out nevertheless.
    assert_eq!(batched_invocations(&base, &paths(&["a", "b"]), 1).len(), 2);
}

#[test]
fn argfile_lists_one_file_per_line() {
    let files = paths(&["a.java", "b c.java"]);
    assert_eq!(argfile_text(&files), "a.java\nb c.java\n");
    assert_eq!(
        argfile_invocation(&paths(&["--replace"]), &files, "/tmp/list"),
        Some(paths(&["--replace", "@/tmp/list"]))
    );
}

// --- output ---

#[test]
fn filter_jvm_noise_strips_warning_lines() {
    let raw =
        "WARNING: sun.misc.Unsafe...\nWARNING: more noise\nFoo.kt:3:11: error: Expecting ')'\n";
    let filtered = filter_jvm_noise(raw);
    assert_eq!(filtered, "Foo.kt:3:11: error: Expecting ')'");
}

#[test]
fn filter_jvm_noise_keeps_real_errors_when_no_warnings() {
    let raw = "/path/to/Foo.kt:5:10: error: something\n";
    assert_eq!(
        filter_jvm_noise(raw),
        "/path/to/Foo.kt:5:10: error: something"
    );
}

#[test]
fn filter_jvm_noise_returns_empty_when_only_warnings() {
    let raw = "WARNING: a\nWARNING: b\n";
    assert_eq!(filter_jvm_noise(raw), "");
}

#[test]
fn filter_jvm_noise_preserves_indented_warning_in_error_text() {
    // A line that just contains "WARNING:" somewhere in the middle is
    // kept; we only filter top-of-line JVM warnings.
    let raw = "error: thing went wrong (WARNING: do not retry)\n";
    assert_eq!(
        filter_jvm_noise(raw),
        "error: thing went wrong (WARNING: do not retry)"
    );
}

#[test]
fn failed_runs_tell_the_exit_code_and_the_error_output() {
    assert!(interpret_run("ktfmt", &output(Some(0), "", "noise")).is_ok());
    let err = interpret_run("ktfmt", &output(Some(3), "x", "WARNING: a\n")).unwrap_err();
    assert_eq!(err.message, "ktfmt failed (exit 3)");
    let err = interpret_run("gjf", &output(None, "", " boom \n")).unwrap_err();
    assert_eq!(err.message, "gjf failed (exit -1):\nboom");
    let err = formatter_failure("rustfmt", &output(Some(1), " out ", "err\n"));
    assert_eq!(err.message, "rustfmt failed (exit 1):\nout\nerr");
    assert_eq!(exit_code(Some(-2147483648)), "-2147483648");
}

#[test]
fn checks_list_the_files_that_need_formatting() {
    let run = interpret_check("ktfmt", &output(Some(1), " a.kt\n\n b.kt \n", "")).unwrap();
    assert!(!run.success);
    assert_eq!(run.paths, ["a.kt", "b.kt"]);
    let err = interpret_check("ktfmt", &output(Some(2), "\n", "WARNING: x\n")).unwrap_err();
    assert_eq!(err.message, "ktfmt failed (exit 2)");
    assert!(interpret_check("ktfmt", &output(Some(0), "", "")).unwrap().success);
}

#[test]
fn merged_checks_hold_what_both_found() {
    let mut acc = CheckRun { success: true, paths: vec![], stderr: String::new() };
    acc.merge(CheckRun { success: true, paths: paths(&["a"]), stderr: String::new() });
    assert!(acc.success);
    acc.merge(CheckRun { success: false, paths: paths(&["b"]), stderr: "e1".into() });
    acc.merge(CheckRun { success: true, paths: vec![], stderr: "e2".into() });
    assert!(!acc.success);
    assert_eq!(acc.paths, ["a", "b"]);
    assert_eq!(acc.stderr, "e1\ne2");
}
