//! The pre-commit hook.

use kempt::git::{GitContext, GitError};
use kempt::hook::{
    check_partial_staging, compare_staging, format_partial_stage_error, install_pre_commit,
    pre_commit_path, StagingCheck,
};

struct FakeGit {
    root: String,
    staged: Vec<String>,
    unstaged: Result<Vec<String>, String>,
}

fn list(items: Vec<&str>) -> Vec<String> {
    items.into_iter().map(|s| s.to_string()).collect()
}

impl FakeGit {
    fn new(root: &str) -> Self {
        FakeGit { root: root.to_string(), staged: vec![], unstaged: Ok(vec![]) }
    }

    fn with_staged(mut self, paths: Vec<&str>) -> Self {
        self.staged = list(paths);
        self
    }

    fn with_unstaged(mut self, paths: Vec<&str>) -> Self {
        self.unstaged = Ok(list(paths));
        self
    }
}

impl GitContext for FakeGit {
    fn root(&self) -> &str {
        &self.root
    }
    fn ls_files(&self) -> Result<Vec<String>, GitError> {
        Ok(vec![])
    }
    fn staged_files(&self) -> Result<Vec<String>, GitError> {
        Ok(self.staged.clone())
    }
    fn touched_files(&self, _base: Option<&str>) -> Result<Vec<String>, GitError> {
        Ok(vec![])
    }
    fn unstaged_modified_files(&self) -> Result<Vec<String>, GitError> {
        match &self.unstaged {
            Ok(v) => Ok(v.clone()),
            Err(e) => Err(GitError { message: e.clone() }),
        }
    }
    fn add(&self, _paths: &Vec<String>) -> Result<(), GitError> {
        Ok(())
    }
}

#[test]
fn check_partial_staging_safe_when_no_overlap() {
    let git = FakeGit::new("/r").with_staged(vec!["a.kt"]).with_unstaged(vec!["b.kt"]);
    let candidates = list(vec!["a.kt"]);
    assert_eq!(check_partial_staging(&git, &candidates).unwrap(), StagingCheck::Safe);
}

#[test]
fn check_partial_staging_flags_overlapping_files() {
    let git = FakeGit::new("/r").with_staged(vec!["a.kt", "b.kt"]).with_unstaged(vec!["a.kt"]);
    let candidates = list(vec!["a.kt", "b.kt"]);
    match check_partial_staging(&git, &candidates).unwrap() {
        StagingCheck::PartialStage { files } => {
            assert_eq!(files, list(vec!["a.kt"]));
        }
        other => panic!("expected PartialStage, got {other:?}"),
    }
}

#[test]
fn check_partial_staging_ignores_unstaged_files_outside_candidates() {
    // file is unstaged-modified but not in our candidate set → not a conflict
    let git = FakeGit::new("/r").with_unstaged(vec!["unrelated.kt"]);
    let candidates = list(vec!["a.kt"]);
    assert_eq!(check_partial_staging(&git, &candidates).unwrap(), StagingCheck::Safe);
}

#[test]
fn check_partial_staging_empty_candidates_is_safe() {
    let git = FakeGit::new("/r").with_unstaged(vec!["a.kt"]);
    assert_eq!(check_partial_staging(&git, &vec![]).unwrap(), StagingCheck::Safe);
}

#[test]
fn check_partial_staging_results_are_sorted_for_stable_output() {
    let git = FakeGit::new("/r")
        .with_staged(vec!["c.kt", "a.kt", "b.kt"])
        .with_unstaged(vec!["c.kt", "a.kt", "b.kt"]);
    let candidates = list(vec!["c.kt", "a.kt", "b.kt"]);
    match check_partial_staging(&git, &candidates).unwrap() {
        StagingCheck::PartialStage { files } => {
            assert_eq!(files, list(vec!["a.kt", "b.kt", "c.kt"]));
        }
        _ => panic!(),
    }
}

#[test]
fn git_errors_come_through() {
    let mut git = FakeGit::new("/r");
    git.unstaged = Err("broken".into());
    let err = check_partial_staging(&git, &list(vec!["a.kt"])).unwrap_err();
    assert_eq!(err.message, "query unstaged-modified files: broken");
}

#[test]
fn paths_are_compared_by_their_parts() {
    assert_eq!(
        compare_staging(&list(vec!["a/b.kt"]), &list(vec!["a//b.kt"])),
        StagingCheck::PartialStage { files: list(vec!["a/b.kt"]) }
    );
}

#[test]
fn format_partial_stage_error_lists_files_and_options() {
    let msg = format_partial_stage_error(&list(vec!["a.kt", "b.kt"]));
    assert!(msg.contains("a.kt"));
    assert!(msg.contains("b.kt"));
    assert!(msg.contains("--no-verify"));
    assert!(msg.contains("git stash"));
}

#[test]
fn install_pre_commit_writes_executable_hook() {
    let hook = install_pre_commit("/r/.git", false, false).unwrap();
    assert_eq!(hook.path, "/r/.git/hooks/pre-commit");
    assert!(hook.body.contains("kempt hook"));
    assert!(hook.body.starts_with("#!/bin/sh\n"));
}

#[test]
fn install_pre_commit_refuses_to_overwrite() {
    let err = install_pre_commit("/r/.git", true, false).unwrap_err();
    assert!(err.message().contains("already exists"));
    assert_eq!(err.path, pre_commit_path("/r/.git"));
}

#[test]
fn install_pre_commit_force_overwrites() {
    let hook = install_pre_commit("/r/.git", true, true).unwrap();
    assert!(hook.body.contains("kempt hook"));
}
