//! The command lines of git, and what their output means.

use kempt::git::{
    add_args, cat_file_args, hash_object_args, index_entry_args, ls_files_args, paths_of,
    spawn_failure, staged_args, staged_diff_args, touched_args, unstaged_args, untracked_args,
    update_index_args, BaseSearch, BaseStep, GitOutput, RealGit, StagedUpdate,
};

fn list(items: &[&str]) -> Vec<String> {
    items.iter().map(|s| s.to_string()).collect()
}

fn ok(stdout: &str) -> GitOutput {
    GitOutput { success: true, stdout: Some(stdout.to_string()), stderr: String::new() }
}

fn failed(stderr: &str) -> GitOutput {
    GitOutput { success: false, stdout: Some(String::new()), stderr: stderr.to_string() }
}

fn repo() -> RealGit {
    RealGit { root: "/repo".to_string() }
}

/// Runs the search for a base, with the answers of git.
fn search(answer: impl Fn(&[String]) -> GitOutput) -> Result<String, String> {
    let mut state = BaseSearch::OriginHead;
    loop {
        let output = answer(&state.next_command());
        match state.advance(output) {
            BaseStep::Continue(next) => state = next,
            BaseStep::Found(base) => return Ok(base),
            BaseStep::Failed(e) => return Err(e.message),
        }
    }
}

#[test]
fn add_restages_tracked_file_under_ignored_directory() {
    let args = add_args(&list(&["ignored/file.txt"])).unwrap();
    assert!(args.contains(&"--force".to_string()));
    assert_eq!(args[args.len() - 2..], list(&["--", "ignored/file.txt"]));
    assert_eq!(add_args(&vec![]), None);
    assert!(repo().added(&ok("")).is_ok());
    assert!(repo().added(&failed("fatal: no")).unwrap_err().message.contains("fatal: no"));
}

#[test]
fn touched_files_include_branch_worktree_and_untracked_changes() {
    let git = repo();
    let diff = "committed.kt\nbranch-added.kt\nstaged-new.kt\nstaged.kt\nunstaged.kt\n";
    let differing = git.touched_diff("main", &ok(diff)).unwrap();
    let untracked = paths_of(&untracked_args(), &ok("untracked.kt\n")).unwrap();
    assert_eq!(
        git.touched_files(&differing, &untracked),
        list(&[
            "branch-added.kt",
            "committed.kt",
            "staged-new.kt",
            "staged.kt",
            "unstaged.kt",
            "untracked.kt",
        ])
    );
}

#[test]
fn touched_base_prefers_origin_head() {
    let base = search(|args| {
        if args.contains(&"refs/remotes/origin/HEAD".to_string()) {
            ok("origin/release\n")
        } else {
            failed("")
        }
    });
    assert_eq!(base.unwrap(), "origin/release");
}

#[test]
fn touched_base_falls_back_to_other_remotes_and_usual_names() {
    let base = search(|args| match args[0].as_str() {
        "for-each-ref" => ok("refs/remotes/a/HEAD\nrefs/remotes/b/HEAD\n"),
        _ if args.contains(&"refs/remotes/b/HEAD".to_string()) => ok("b/trunk\n"),
        _ => failed(""),
    });
    assert_eq!(base.unwrap(), "b/trunk");
    let base = search(|args| {
        if args.contains(&"master".to_string()) {
            ok("0123\n")
        } else {
            failed("")
        }
    });
    assert_eq!(base.unwrap(), "master");
}

#[test]
fn touched_files_require_an_inferable_base() {
    let err = search(|_| failed("")).unwrap_err();
    assert!(err.contains("pass --base <ref>"));
}

#[test]
fn parsed_diffs_ignore_external_diff_textconv_and_color_config() {
    for args in [
        staged_args(),
        unstaged_args(),
        touched_args("main"),
        staged_diff_args("staged.txt", 0),
    ] {
        assert_eq!(args[..4], list(&["diff", "--no-ext-diff", "--no-textconv", "--no-color"]));
    }
    assert_eq!(
        paths_of(&staged_args(), &ok("staged.txt\n")).unwrap(),
        list(&["staged.txt"])
    );
    assert_eq!(
        repo().staged_diff("staged.txt", ok("@@ -1 +1 @@\n")).unwrap(),
        "@@ -1 +1 @@\n"
    );
}

#[test]
fn root_is_read_from_the_output() {
    assert_eq!(RealGit::discover(&ok("/repo\n")).unwrap().root(), "/repo");
    assert!(RealGit::discover(&failed("fatal: not a git repository")).is_err());
    assert_eq!(RealGit::discover_args(), list(&["rev-parse", "--show-toplevel"]));
}

#[test]
fn failed_listings_are_errors() {
    let err = paths_of(&ls_files_args(), &failed("fatal: boom")).unwrap_err();
    assert!(err.message.contains("fatal: boom"));
    let garbled = GitOutput { success: true, stdout: None, stderr: String::new() };
    assert!(paths_of(&ls_files_args(), &garbled).is_err());
    assert!(spawn_failure("git add", "no such file").message.contains("no such file"));
}

#[test]
fn index_entries_have_a_mode_and_a_blob() {
    let git = repo();
    assert_eq!(
        git.index_entry("a.java", &ok("100755 0123abc 0\ta.java\n")).unwrap(),
        ("100755".to_string(), "0123abc".to_string())
    );
    assert!(git.index_entry("a.java", &ok("")).is_err());
    assert!(git.index_entry("a.java", &failed("no")).is_err());
    assert!(index_entry_args("a.java").contains(&"a.java".to_string()));
    assert!(cat_file_args("0123abc").contains(&"0123abc".to_string()));
    assert!(git.cat_file_failure("a.java", "gone").message.contains("gone"));
}

#[test]
fn staged_updates_keep_the_mode() {
    let git = repo();
    let path = "a.java";
    let step = |s: StagedUpdate, out: GitOutput| s.advance(&git, path, out).unwrap();
    let start = StagedUpdate::LookUp;
    assert_eq!(start.next_command(path, "/tmp/x"), Some(index_entry_args(path)));
    let store = step(start, ok("100755 0123abc 0\ta.java\n"));
    assert_eq!(store.next_command(path, "/tmp/x"), Some(hash_object_args(path, "/tmp/x")));
    let enter = step(store, ok("fedcba\n"));
    assert_eq!(
        enter.next_command(path, "/tmp/x"),
        Some(update_index_args("100755", "fedcba", path))
    );
    let done = step(enter, ok(""));
    assert_eq!(done, StagedUpdate::Done);
    assert_eq!(done.next_command(path, "/tmp/x"), None);
}

#[test]
fn staged_updates_stop_at_errors() {
    let git = repo();
    assert!(StagedUpdate::LookUp.advance(&git, "a", failed("x")).is_err());
    let store = StagedUpdate::Store { mode: "100644".into() };
    assert!(store.advance(&git, "a", failed("x")).is_err());
    let enter = StagedUpdate::Enter { mode: "100644".into(), sha: "1".into() };
    assert!(enter.advance(&git, "a", failed("x")).is_err());
}
