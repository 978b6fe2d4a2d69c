//! Which files a run takes.

use kempt::config::ResolvedPaths;
use kempt::git::{GitContext, GitError};
use kempt::globs::GlobError;
use kempt::paths::{
    apply_global_excludes, build_globset, collect_universe, prunes, resolve_explicit_targets,
    tool_globset, walk_tree, Found, Scope, Target, TargetError, TargetFault, ToolGlobError,
    WalkEntry,
};

struct FakeGit {
    root: String,
    known: Vec<String>,
    staged: Vec<String>,
}

fn list(items: &[&str]) -> Vec<String> {
    items.iter().map(|s| s.to_string()).collect()
}

impl FakeGit {
    fn new(root: &str) -> Self {
        FakeGit { root: root.to_string(), known: vec![], staged: vec![] }
    }
}

impl GitContext for FakeGit {
    fn root(&self) -> &str {
        &self.root
    }
    fn ls_files(&self) -> Result<Vec<String>, GitError> {
        Ok(self.known.clone())
    }
    fn staged_files(&self) -> Result<Vec<String>, GitError> {
        Ok(self.staged.clone())
    }
    fn touched_files(&self, _base: Option<&str>) -> Result<Vec<String>, GitError> {
        Ok(vec![])
    }
    fn unstaged_modified_files(&self) -> Result<Vec<String>, GitError> {
        Ok(vec![])
    }
    fn add(&self, _paths: &Vec<String>) -> Result<(), GitError> {
        Ok(())
    }
}

/// The files at or below a directory that a walk over `files` comes to.
fn walk(root: &str, files: &[&str], from: &str) -> Vec<String> {
    let mut entries = vec![WalkEntry { path: root.to_string(), is_file: false }];
    for f in files {
        let dirs: Vec<&str> = f.split('/').collect();
        let pruned = dirs[..dirs.len() - 1].iter().any(|d| prunes(d, true));
        if f.starts_with(from) && !pruned && !prunes(dirs[dirs.len() - 1], false) {
            entries.push(WalkEntry { path: format!("{root}/{f}"), is_file: true });
        }
    }
    walk_tree(&entries, root).unwrap()
}

fn globs(patterns: &[&str]) -> globset::GlobSet {
    build_globset(&list(patterns)).unwrap()
}

#[test]
fn collect_universe_returns_all_tracked_for_all_scope() {
    let mut git = FakeGit::new("/repo");
    git.known = list(&["a.kt", "b.java", "README.md"]);
    let mut out = collect_universe(&git, Scope::All, vec![]).unwrap();
    out.sort();
    assert_eq!(out, list(&["README.md", "a.kt", "b.java"]));
}

#[test]
fn collect_universe_returns_staged_for_staged_scope() {
    let mut git = FakeGit::new("/repo");
    git.known = list(&["a.kt", "b.kt"]);
    git.staged = list(&["a.kt"]);
    let out = collect_universe(&git, Scope::Staged, vec![]).unwrap();
    assert_eq!(out, list(&["a.kt"]));
}

#[test]
fn collect_universe_returns_explicit_unmodified() {
    let git = FakeGit::new("/repo");
    let explicit = list(&["a.kt", "not-source.txt"]);
    let out = collect_universe(
        &git,
        Scope::Explicit { files: explicit.clone(), force: false },
        vec![],
    )
    .unwrap();
    assert_eq!(out, explicit);
}

#[test]
fn apply_global_excludes_drops_matching_paths() {
    let exclude = globs(&["**/build/**", "**/target/**"]);
    let files = list(&["src/Foo.kt", "build/Generated.kt", "target/classes/Bar.java"]);
    let out = apply_global_excludes(files, &exclude);
    assert_eq!(out, list(&["src/Foo.kt"]));
}

#[test]
fn apply_global_excludes_no_match_keeps_everything() {
    let exclude = globs(&["**/build/**"]);
    let files = list(&["a.kt", "b.kt"]);
    let out = apply_global_excludes(files.clone(), &exclude);
    assert_eq!(out, files);
}

#[test]
fn tool_globset_builds_include_and_exclude() {
    let rp = ResolvedPaths {
        includes: list(&["**/*.kt", "**/*.kts"]),
        exclude: list(&["**/Skip.kt"]),
    };
    let (inc, exc) = tool_globset(&rp).unwrap();
    assert!(inc.is_match("a/b/Foo.kt"));
    assert!(inc.is_match("build.gradle.kts"));
    assert!(!inc.is_match("Bar.java"));
    assert!(exc.is_match("a/Skip.kt"));
    assert!(!exc.is_match("a/Keep.kt"));
}

#[test]
fn build_globset_rejects_invalid_pattern() {
    let r = build_globset(&list(&["[bad"]));
    assert!(r.is_err());
}

#[test]
fn bad_patterns_are_named() {
    match build_globset(&list(&["ok", "[bad"])) {
        Err(GlobError::BadPattern { pattern, cause }) => {
            assert_eq!(pattern, "[bad");
            assert!(!cause.is_empty());
        }
        _ => panic!(),
    }
    let rp = ResolvedPaths { includes: list(&["a{"]), exclude: list(&["b{"]) };
    assert!(matches!(tool_globset(&rp), Err(ToolGlobError::Includes(_))));
    let rp = ResolvedPaths { includes: list(&["a"]), exclude: list(&["b{"]) };
    let err = tool_globset(&rp).err().unwrap();
    assert!(matches!(err, ToolGlobError::Excludes(_)));
    assert!(err.message().contains("b{"));
}

#[test]
fn no_pattern_accepts_nothing() {
    assert!(!globs(&[]).is_match("a"));
}

#[test]
fn walk_returns_files_regardless_of_git_state() {
    let git = FakeGit::new("/repo");
    let walked = walk("/repo", &["src/Foo.kt", "README.md"], "");
    let mut out = collect_universe(&git, Scope::Walk, walked).unwrap();
    out.sort();
    assert_eq!(out, list(&["README.md", "src/Foo.kt"]));
}

#[test]
fn walk_prunes_dot_git_directory() {
    let git = FakeGit::new("/repo");
    let walked = walk("/repo", &[".git/HEAD", ".git/hooks/Skipped.kt", "Real.kt"], "");
    let out = collect_universe(&git, Scope::Walk, walked).unwrap();
    assert_eq!(out, list(&["Real.kt"]));
}

#[test]
fn walk_does_not_consult_gitignore() {
    let git = FakeGit::new("/repo");
    let walked = walk("/repo", &[".gitignore", "ignored/Foo.kt", "Bar.kt"], "");
    let out = collect_universe(&git, Scope::Walk, walked).unwrap();
    // Both Bar.kt and ignored/Foo.kt are present (gitignore not consulted).
    assert!(out.iter().any(|p| p == "Bar.kt"));
    assert!(out.iter().any(|p| p == "ignored/Foo.kt"));
}

#[test]
fn walk_rejects_files_outside_the_root() {
    let entries = vec![
        WalkEntry { path: "/repo/a".into(), is_file: true },
        WalkEntry { path: "/elsewhere/b".into(), is_file: true },
    ];
    assert_eq!(walk_tree(&entries, "/repo"), Err("/elsewhere/b".to_string()));
}

/// Resolves targets in a tree of files.
fn resolve(targets: &[&str], cwd: &str, files: &[&str]) -> Result<Vec<String>, TargetError> {
    let root = "/repo";
    let targets = targets
        .iter()
        .map(|t| {
            let absolute = if t.starts_with('/') {
                t.to_string()
            } else {
                format!("{cwd}/{t}")
            };
            let inside = absolute.strip_prefix("/repo/").unwrap_or("").to_string();
            let below = format!("{inside}/");
            let found = if files.contains(&inside.as_str()) {
                Found::File { canonical: absolute }
            } else if !inside.is_empty() && files.iter().any(|f| f.starts_with(&below)) {
                Found::Directory { canonical: absolute, files: walk(root, files, &below) }
            } else {
                Found::Absent
            };
            Target { text: t.to_string(), found }
        })
        .collect();
    resolve_explicit_targets(&targets, cwd, cwd, root, &walk(root, files, ""))
}

#[test]
fn explicit_directory_recurses_and_deduplicates() {
    let files = ["src/Foo.kt", "src/nested/Bar.java", "src/.git/Hidden.kt", "other/Baz.kt"];
    let out = resolve(&["src", "src/Foo.kt"], "/repo", &files).unwrap();
    assert_eq!(out, list(&["src/Foo.kt", "src/nested/Bar.java"]));
}

#[test]
fn explicit_file_resolves_relative_to_cwd() {
    let out = resolve(&["Foo.kt"], "/repo/src", &["src/Foo.kt"]).unwrap();
    assert_eq!(out, list(&["src/Foo.kt"]));
}

#[test]
fn explicit_pattern_matches_files_relative_to_cwd() {
    let files = ["src/Foo.kt", "src/nested/Bar.kt", "src/nested/Bar.java"];
    let out = resolve(&["../src/**/*.kt"], "/repo/module", &files).unwrap();
    assert_eq!(out, list(&["src/Foo.kt", "src/nested/Bar.kt"]));
}

#[test]
fn explicit_pattern_errors_when_nothing_matches() {
    let err = resolve(&["src/**/*.java"], "/repo", &["src/Foo.kt"]).unwrap_err();
    assert!(err.message().contains("pattern matched no files"));
}

#[test]
fn explicit_target_rejects_paths_outside_repo() {
    let outside = Target {
        text: "/tmp/outside".into(),
        found: Found::File { canonical: "/tmp/outside".into() },
    };
    let err = resolve_explicit_targets(&vec![outside], "/repo", "/repo", "/repo", &vec![])
        .unwrap_err();
    assert!(err.message().contains("outside the repo root"));
}

#[test]
fn every_wrong_target_is_told_apart() {
    let fault = |text: &str| resolve(&[text], "/repo", &["a.kt"]).unwrap_err().fault;
    assert_eq!(fault("gone.kt"), TargetFault::NotFound);
    assert_eq!(fault("../../../x*"), TargetFault::PatternEscapes);
    assert_eq!(
        resolve(&["../../../x*"], "/repo", &["a.kt"]).unwrap_err().message(),
        "pattern escapes the filesystem root: /repo/../../../x*"
    );
    assert_eq!(fault("../x*"), TargetFault::PatternOutside);
    assert_eq!(fault("[bad"), TargetFault::InvalidPattern);
    assert_eq!(fault("*.java"), TargetFault::NoMatch);

    let fifo = |canonical: &str| Target {
        text: "fifo".into(),
        found: Found::Special { canonical: canonical.into() },
    };
    let err = resolve_explicit_targets(&vec![fifo("/repo/fifo")], "/repo", "/repo", "/repo", &vec![])
        .unwrap_err();
    assert_eq!(err.message(), "path is not a file or directory: fifo");
    let err = resolve_explicit_targets(&vec![fifo("/dev/fifo")], "/repo", "/repo", "/repo", &vec![])
        .unwrap_err();
    assert_eq!(err.fault, TargetFault::PathOutside);

    let err = resolve_explicit_targets(&vec![], "/tmp", "/tmp", "/repo", &vec![]).unwrap_err();
    assert_eq!(err.message(), "current directory /tmp is outside the repo root");
}
