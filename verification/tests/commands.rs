//! Runs of the formatter, on files kept in memory.

use kempt::commands::{
    apply_pipeline, cargo_fmt_args, decide_hook, experimental_partial_gjf_enabled, finish_hook,
    interpret_rustfmt, merge_format_changes, merge_jvm_check_run, merge_rustfmt_check,
    parse_added_line_ranges, partial_gjf_args, partial_gjf_update, run_format, run_hook,
    select_formattable, FileSnapshot, FormatOutcome, RunError, RunPlan, Stage, ToolScopes,
};
use kempt::config::{
    Config, Gjf, GjfStyle, GlobList, Hook, HookMode, LicenseHeader, Paths, Rustfmt, ToolPaths,
};
use kempt::formatters::{CheckRun, ToolOutput};
use kempt::fspath::PathSet;
use kempt::git::{GitContext, GitError};
use kempt::hook::StagingCheck;
use kempt::paths::Scope;
use kempt::snapshot::{FileState, FileTexts};
use std::cell::RefCell;
use std::collections::BTreeMap;

const ROOT: &str = "/repo";

fn list(items: &[&str]) -> Vec<String> {
    items.iter().map(|s| s.to_string()).collect()
}

/// A repository in memory.
struct Repo {
    files: RefCell<BTreeMap<String, String>>,
    known: Vec<String>,
    staged: Vec<String>,
    unstaged: Vec<String>,
    added: RefCell<Vec<String>>,
}

impl Repo {
    fn new(files: &[(&str, &str)]) -> Self {
        let map = files.iter().map(|(p, c)| (p.to_string(), c.to_string())).collect();
        Repo {
            files: RefCell::new(map),
            known: files.iter().map(|f| f.0.to_string()).collect(),
            staged: vec![],
            unstaged: vec![],
            added: RefCell::new(vec![]),
        }
    }

    fn read(&self, path: &str) -> String {
        self.files.borrow()[path].clone()
    }
}

impl GitContext for Repo {
    fn root(&self) -> &str {
        ROOT
    }
    fn ls_files(&self) -> Result<Vec<String>, GitError> {
        Ok(self.known.clone())
    }
    fn staged_files(&self) -> Result<Vec<String>, GitError> {
        Ok(self.staged.clone())
    }
    fn touched_files(&self, _base: Option<&str>) -> Result<Vec<String>, GitError> {
        Ok(vec![])
    }
    fn unstaged_modified_files(&self) -> Result<Vec<String>, GitError> {
        Ok(self.unstaged.clone())
    }
    fn add(&self, paths: &Vec<String>) -> Result<(), GitError> {
        self.added.borrow_mut().extend(paths.iter().cloned());
        Ok(())
    }
}

fn relative(path: &str) -> String {
    path.strip_prefix("/repo/").unwrap().to_string()
}

fn rewrite(repo: &Repo, outcome: &mut FormatOutcome, files: &[String], format: fn(&str) -> String) {
    let before: Vec<FileSnapshot> = files
        .iter()
        .map(|f| FileSnapshot { path: f.clone(), content: repo.read(&relative(f)).into_bytes() })
        .collect();
    for f in files {
        let formatted = format(&repo.read(&relative(f)));
        repo.files.borrow_mut().insert(relative(f), formatted);
    }
    let after: Vec<Vec<u8>> = files.iter().map(|f| repo.read(&relative(f)).into_bytes()).collect();
    merge_format_changes(outcome, ROOT, &before, &after).unwrap();
}

/// Performs a plan: `gjf` and `rustfmt` say what the formatters make of a file.
fn perform(
    repo: &Repo,
    plan: &RunPlan,
    gjf: fn(&str) -> String,
    rustfmt: fn(&str) -> String,
) -> FormatOutcome {
    let mut outcome = FormatOutcome::default();
    let mut stage = Stage::Pipeline;
    loop {
        match stage {
            Stage::Pipeline => {
                let contents = plan.tasks.iter().map(|t| repo.read(&t.path)).collect();
                let (o, writes) = apply_pipeline(&plan.tasks, &contents, ROOT, plan.check);
                outcome = o;
                for w in writes {
                    repo.files.borrow_mut().insert(relative(&w.path), w.content);
                }
            }
            Stage::Gjf => {
                assert!(!plan.check);
                rewrite(repo, &mut outcome, &plan.gjf, gjf);
            }
            Stage::Rustfmt => {
                let absolute: Vec<String> =
                    plan.rustfmt.iter().map(|f| format!("{ROOT}/{f}")).collect();
                if plan.check {
                    for f in &plan.rustfmt {
                        let clean = rustfmt(&repo.read(f)) == repo.read(f);
                        let output = ToolOutput {
                            success: clean,
                            code: Some(if clean { 0 } else { 1 }),
                            stdout: String::new(),
                            stderr: String::new(),
                        };
                        merge_rustfmt_check(&mut outcome, f, &output);
                    }
                } else {
                    rewrite(repo, &mut outcome, &absolute, rustfmt);
                }
            }
            Stage::Restage => {
                if let Some(paths) = finish_hook(&mut outcome, &PathSet::new()) {
                    repo.add(&paths).unwrap();
                }
            }
            Stage::Ktfmt | Stage::PartialGjf => panic!("unexpected {stage:?}"),
            Stage::Finished => return outcome,
        }
        stage = plan.next_stage(stage);
    }
}

fn same(s: &str) -> String {
    s.to_string()
}

fn no_excludes() -> Paths {
    Paths { exclude: GlobList::Inline(vec![]) }
}

fn config_inproc_only() -> Config {
    Config {
        license_header: Some(LicenseHeader { file: "config/header.txt".into() }),
        paths: no_excludes(),
        ..Default::default()
    }
}

fn texts() -> FileTexts {
    let mut t = FileTexts::new();
    t.note("/repo/config/header.txt".into(), FileState::Text("// (c) ${YEAR} test\n".into()));
    t
}

fn config_gjf_only() -> Config {
    Config {
        gjf: Some(Gjf {
            version: None,
            path: Some("fake-gjf".into()),
            style: Default::default(),
            license_header: None,
            native: Default::default(),
            paths: None,
        }),
        paths: no_excludes(),
        ..Default::default()
    }
}

fn config_rustfmt_only() -> Config {
    Config { rustfmt: Some(Rustfmt::default()), paths: no_excludes(), ..Default::default() }
}

fn format(repo: &Repo, cfg: &Config, check: bool) -> Option<RunPlan> {
    run_format(cfg, repo, ROOT, &texts(), Scope::All, vec![], check, 2026).unwrap()
}

#[test]
fn parse_added_line_ranges_reads_cached_diff_hunks() {
    let diff = "\
diff --git a/Foo.java b/Foo.java\n\
@@ -1 +1,2 @@\n\
@@ -8,0 +10,3 @@\n\
@@ -20,2 +24,0 @@\n";
    assert_eq!(parse_added_line_ranges(diff), vec![(1, 2), (10, 12)]);
}

#[test]
fn parse_added_line_ranges_ignores_what_is_no_hunk() {
    assert_eq!(parse_added_line_ranges("@@ -1 +7 @@ fn\n+x\n@@ bad @@\n"), vec![(7, 7)]);
    assert_eq!(parse_added_line_ranges("@@ -1 +99999999999999999999 @@\n"), vec![]);
    assert_eq!(parse_added_line_ranges(""), vec![]);
}

#[test]
fn run_format_inserts_header_and_fixes_whitespace() {
    let repo = Repo::new(&[("src/Foo.kt", "package foo   \n")]);
    let plan = format(&repo, &config_inproc_only(), false).unwrap();
    let out = perform(&repo, &plan, same, same);
    assert_eq!(out.changed.len(), 1);
    assert!(!out.check_failed);

    let body = repo.read("src/Foo.kt");
    assert!(body.starts_with("// (c) 2026 test"));
    assert!(!body.contains("foo   "));
}

#[test]
fn run_format_check_mode_does_not_write() {
    let repo = Repo::new(&[("src/Foo.kt", "package foo   \n")]);
    let plan = format(&repo, &config_inproc_only(), true).unwrap();
    let out = perform(&repo, &plan, same, same);
    assert_eq!(out.changed.len(), 1);
    assert!(out.check_failed);
    assert_eq!(repo.read("src/Foo.kt"), "package foo   \n", "check mode must not modify files");
}

#[test]
fn run_format_clean_files_yield_empty_outcome() {
    let repo = Repo::new(&[("src/Foo.kt", "// (c) 2024 test\npackage foo\n")]);
    let plan = format(&repo, &config_inproc_only(), false).unwrap();
    let out = perform(&repo, &plan, same, same);
    assert_eq!(out.changed.len(), 0);
    assert!(!out.check_failed);
}

#[test]
fn run_format_without_files_has_no_plan() {
    let repo = Repo::new(&[]);
    assert!(format(&repo, &config_inproc_only(), false).is_none());
}

#[test]
fn run_format_reports_jvm_formatter_changes() {
    let repo = Repo::new(&[("src/Foo.java", "public class Foo {}\n")]);
    let plan = format(&repo, &config_gjf_only(), false).unwrap();
    let out = perform(&repo, &plan, |s| format!("{s}reformatted\n"), same);
    assert_eq!(out.changed.into_vec(), list(&["src/Foo.java"]));
    assert!(!out.check_failed);
    assert!(repo.read("src/Foo.java").contains("reformatted"));
}

fn fake_rustfmt(s: &str) -> String {
    s.replace("pub fn answer()->i32{1}", "pub fn answer() -> i32 {\n    1\n}")
}

#[test]
fn run_format_runs_cargo_fmt_for_rust_files() {
    let repo = Repo::new(&[("src/lib.rs", "pub fn answer()->i32{1}\n")]);
    let plan = format(&repo, &config_rustfmt_only(), false).unwrap();
    let out = perform(&repo, &plan, same, fake_rustfmt);
    assert_eq!(out.changed.into_vec(), list(&["src/lib.rs"]));
    assert_eq!(repo.read("src/lib.rs"), "pub fn answer() -> i32 {\n    1\n}\n");
    assert_eq!(plan.rustfmt, list(&["src/lib.rs"]));
}

#[test]
fn run_format_inserts_rust_header_and_runs_cargo_fmt() {
    let repo = Repo::new(&[("src/lib.rs", "pub fn answer()->i32{1}\n")]);
    let mut cfg = config_rustfmt_only();
    cfg.license_header = Some(LicenseHeader { file: "config/header.txt".into() });
    let plan = format(&repo, &cfg, false).unwrap();
    let out = perform(&repo, &plan, same, fake_rustfmt);
    assert_eq!(out.changed.into_vec(), list(&["src/lib.rs"]));
    assert_eq!(
        repo.read("src/lib.rs"),
        "// (c) 2026 test\npub fn answer() -> i32 {\n    1\n}\n"
    );
}

#[test]
fn run_format_check_mode_reports_rustfmt_changes_without_writing() {
    let repo = Repo::new(&[("src/lib.rs", "pub fn answer()->i32{1}\n")]);
    let plan = format(&repo, &config_rustfmt_only(), true).unwrap();
    let out = perform(&repo, &plan, same, fake_rustfmt);
    assert!(out.check_failed);
    assert_eq!(out.changed.into_vec(), list(&["src/lib.rs"]));
    assert_eq!(repo.read("src/lib.rs"), "pub fn answer()->i32{1}\n");
}

#[test]
fn run_hook_aborts_on_partial_stage() {
    let mut repo = Repo::new(&[("src/Foo.kt", "package foo   \n")]);
    repo.staged = list(&["src/Foo.kt"]);
    repo.unstaged = list(&["src/Foo.kt"]);
    let err = run_hook(&config_inproc_only(), &repo, ROOT, &texts(), 2026, false).err().unwrap();
    assert!(err.message().contains("partial staging"));
}

#[test]
fn run_hook_partial_gjf_updates_index_without_staging_unstaged_hunks() {
    let version = |staged: &str, unstaged: &str| {
        format!(
            "public class Foo {{\nvoid staged() {{\nSystem.out.println(\"{staged}\");\n}}\n\
             void unstaged() {{\nSystem.out.println(\"{unstaged}\");\n}}\n}}\n"
        )
    };
    let worktree = version("new staged", "worktree unstaged");
    let index = version("new staged", "old unstaged");
    let mut repo = Repo::new(&[("src/Foo.java", &worktree)]);
    repo.staged = list(&["src/Foo.java"]);
    repo.unstaged = list(&["src/Foo.java"]);
    let plan = run_hook(&config_gjf_only(), &repo, ROOT, &texts(), 2026, true).unwrap().unwrap();
    // The file is formatted in the index alone: no step touches the worktree.
    assert_eq!(plan.partial_gjf, list(&["src/Foo.java"]));
    assert!(plan.gjf.is_empty() && plan.tasks.is_empty());

    let ranges = parse_added_line_ranges("@@ -3 +3 @@\n");
    assert_eq!(ranges, vec![(3, 3)]);
    assert_eq!(
        partial_gjf_args(GjfStyle::Google, &ranges, "/tmp/Foo.java").unwrap(),
        list(&["--replace", "--lines", "3:3", "/tmp/Foo.java"])
    );
    let formatted = index.replace("new staged\");", "new staged\"); // formatted");

    let mut changed = PathSet::new();
    let staged = partial_gjf_update(
        "src/Foo.java",
        &index.clone().into_bytes(),
        formatted.into_bytes(),
        &mut changed,
    );
    let staged = String::from_utf8(staged.unwrap()).unwrap();
    assert!(staged.contains("new staged\"); // formatted"));
    assert!(staged.contains("old unstaged"));
    assert!(!staged.contains("worktree unstaged"));

    // What was formatted in the index is reported, and not staged again.
    let mut out = FormatOutcome::default();
    assert_eq!(finish_hook(&mut out, &changed), Some(vec![]));
    assert_eq!(out.changed.into_vec(), list(&["src/Foo.java"]));

    let worktree = repo.read("src/Foo.java");
    assert!(worktree.contains("new staged\");"));
    assert!(worktree.contains("worktree unstaged"));
    assert!(!worktree.contains("// formatted"));
}

#[test]
fn run_hook_ignores_partial_staging_of_other_files() {
    let mut repo = Repo::new(&[("README.md", "text   "), ("src/Foo.kt", "package foo   \n")]);
    repo.staged = list(&["README.md"]);
    repo.unstaged = list(&["README.md"]);
    let plan = run_hook(&Config::default(), &repo, ROOT, &texts(), 2026, false).unwrap().unwrap();
    let out = perform(&repo, &plan, same, same);
    assert_eq!(out.changed.len(), 0);
    assert!(!out.check_failed && !out.has_parse_errors());
    assert!(repo.added.borrow().is_empty());

    repo.staged = list(&["README.md", "src/Foo.kt"]);
    let plan = run_hook(&config_inproc_only(), &repo, ROOT, &texts(), 2026, false)
        .unwrap()
        .unwrap();
    assert_eq!(perform(&repo, &plan, same, same).changed.into_vec(), list(&["src/Foo.kt"]));

    repo.unstaged = list(&["README.md", "src/Foo.kt"]);
    match run_hook(&config_inproc_only(), &repo, ROOT, &texts(), 2026, false).err().unwrap() {
        RunError::PartialStaging { files, experimental } => {
            assert_eq!(files, list(&["src/Foo.kt"]));
            assert!(!experimental);
        }
        _ => panic!(),
    }
}

#[test]
fn formattable_files_are_those_that_a_step_acts_on() {
    let all = list(&["a.kt", "b.java", "c.rs", "d.md", "e.kts"]);
    let select = |cfg: &Config| select_formattable(cfg, ROOT, &texts(), &all);
    // The whitespace passes take all sources.
    assert_eq!(select(&Config::default()), list(&["a.kt", "b.java", "c.rs", "e.kts"]));

    let mut cfg = config_gjf_only();
    cfg.whitespace.strip_trailing = false;
    cfg.whitespace.final_newline = false;
    assert_eq!(select(&cfg), list(&["b.java"]));
    cfg.gjf.as_mut().unwrap().paths = Some(ToolPaths {
        includes: Some(GlobList::Inline(list(&["*.md"]))),
        exclude: None,
    });
    assert_eq!(select(&cfg), list(&["d.md"]));

    let mut cfg = config_inproc_only();
    cfg.whitespace.strip_trailing = false;
    cfg.whitespace.final_newline = false;
    // What is left are the headers.
    assert_eq!(select(&cfg), list(&["a.kt", "b.java", "c.rs", "e.kts"]));
    // Templates do not matter.
    cfg.license_header = Some(LicenseHeader { file: "config/none.txt".into() });
    assert_eq!(select(&cfg), list(&["a.kt", "b.java", "c.rs", "e.kts"]));
    // Without usable scopes nothing is known to be out of them.
    cfg.whitespace.paths = Some(ToolPaths {
        includes: Some(GlobList::Inline(list(&["[bad"]))),
        exclude: None,
    });
    assert_eq!(select(&cfg), all);
}

#[test]
fn partial_staging_is_told_before_other_faults() {
    let mut repo = Repo::new(&[("src/Foo.kt", "package foo\n")]);
    repo.staged = list(&["src/Foo.kt"]);
    repo.unstaged = list(&["src/Foo.kt"]);
    let mut cfg = config_inproc_only();
    cfg.license_header = Some(LicenseHeader { file: "config/none.txt".into() });
    let err = |repo: &Repo, cfg: &Config| {
        run_hook(cfg, repo, ROOT, &texts(), 2026, false).err().unwrap()
    };
    assert!(matches!(err(&repo, &cfg), RunError::PartialStaging { .. }));
    repo.unstaged = vec![];
    assert!(matches!(err(&repo, &cfg), RunError::Header(_)));

    // The same with a scope that cannot be used.
    let mut cfg = config_inproc_only();
    cfg.whitespace.paths = Some(ToolPaths {
        includes: Some(GlobList::Inline(list(&["[bad"]))),
        exclude: None,
    });
    assert!(matches!(err(&repo, &cfg), RunError::ToolGlobs(_)));
    repo.unstaged = list(&["src/Foo.kt"]);
    assert!(matches!(err(&repo, &cfg), RunError::PartialStaging { .. }));

    // A fault is told even where no staged file would be formatted.
    let mut repo = Repo::new(&[("README.md", "text\n")]);
    repo.staged = list(&["README.md"]);
    let mut cfg = config_inproc_only();
    cfg.license_header = Some(LicenseHeader { file: "config/none.txt".into() });
    assert!(matches!(err(&repo, &cfg), RunError::Header(_)));
}

#[test]
fn unchanged_staged_files_are_not_updated() {
    let mut changed = PathSet::new();
    let staged = b"class Foo {}\n".to_vec();
    assert_eq!(partial_gjf_update("Foo.java", &staged, staged.clone(), &mut changed), None);
    assert_eq!(changed.len(), 0);
}

#[test]
fn headers_do_not_depend_on_scopes() {
    let repo = Repo::new(&[("src/Foo.kt", "package foo   \n")]);
    let mut cfg = config_inproc_only();
    cfg.whitespace.paths = Some(ToolPaths {
        includes: Some(GlobList::Inline(list(&["**/*.java"]))),
        exclude: None,
    });
    let plan = format(&repo, &cfg, false).unwrap();
    assert!(plan.ktfmt.is_empty());
    perform(&repo, &plan, same, same);
    assert_eq!(repo.read("src/Foo.kt"), "// (c) 2026 test\npackage foo   \n");
}

#[test]
fn formatters_get_the_files_of_their_scopes() {
    let repo = Repo::new(&[("a/A.java", "A\n"), ("b/B.java", "B\n"), ("c.rs", "c\n")]);
    let mut cfg = config_gjf_only();
    cfg.rustfmt = Some(Rustfmt::default());
    cfg.gjf.as_mut().unwrap().paths = Some(ToolPaths {
        includes: None,
        exclude: Some(GlobList::Inline(list(&["b/**"]))),
    });
    let plan = format(&repo, &cfg, false).unwrap();
    assert_eq!(plan.gjf, list(&["/repo/a/A.java"]));
    assert_eq!(plan.rustfmt, list(&["c.rs"]));
    cfg.paths = Paths { exclude: GlobList::Inline(list(&["**/*.rs", "a/**"])) };
    let plan = format(&repo, &cfg, false).unwrap();
    assert!(plan.gjf.is_empty() && plan.rustfmt.is_empty());
}

#[test]
fn checks_pass_after_formatting() {
    let repo = Repo::new(&[("src/Foo.kt", "package foo   \n"), ("b.java", "class B {}")]);
    let cfg = config_inproc_only();
    let plan = format(&repo, &cfg, false).unwrap();
    assert_eq!(perform(&repo, &plan, same, same).changed.len(), 2);
    let plan = format(&repo, &cfg, true).unwrap();
    let out = perform(&repo, &plan, same, same);
    assert_eq!(out.changed.len(), 0);
    assert!(!out.check_failed);
}

#[test]
fn files_outside_the_repository_are_told() {
    let before = vec![
        FileSnapshot { path: "/repo/a.java".into(), content: b"a".to_vec() },
        FileSnapshot { path: "/other/b.java".into(), content: b"b".to_vec() },
    ];
    let after = vec![b"A".to_vec(), b"B".to_vec()];
    let mut out = FormatOutcome::default();
    let err = merge_format_changes(&mut out, ROOT, &before, &after).err().unwrap();
    assert_eq!(err.message, "strip repo root from /other/b.java");
    assert_eq!(out.changed.into_vec(), list(&["a.java"]));
}

#[test]
fn run_hook_partial_gjf_still_rejects_other_files() {
    let mut repo = Repo::new(&[("A.java", ""), ("b.rs", "")]);
    repo.staged = list(&["A.java", "b.rs"]);
    repo.unstaged = list(&["A.java", "b.rs"]);
    let mut cfg = config_gjf_only();
    cfg.rustfmt = Some(Rustfmt::default());
    match run_hook(&cfg, &repo, ROOT, &texts(), 2026, true).err().unwrap() {
        RunError::PartialStaging { files, experimental } => {
            assert!(experimental);
            assert_eq!(files, list(&["b.rs"]));
        }
        _ => panic!(),
    }
}

#[test]
fn run_hook_formats_and_restages_safe_files() {
    let mut repo = Repo::new(&[("src/Foo.kt", "package foo   \n")]);
    repo.staged = list(&["src/Foo.kt"]);
    let plan = run_hook(&config_inproc_only(), &repo, ROOT, &texts(), 2026, false).unwrap().unwrap();
    let out = perform(&repo, &plan, same, same);
    assert_eq!(out.changed.len(), 1);
    assert_eq!(*repo.added.borrow(), list(&["src/Foo.kt"]));
}

#[test]
fn run_hook_restages_jvm_formatter_changes() {
    let mut repo = Repo::new(&[("src/Foo.java", "public class Foo {}\n")]);
    repo.staged = list(&["src/Foo.java"]);
    let plan = run_hook(&config_gjf_only(), &repo, ROOT, &texts(), 2026, false).unwrap().unwrap();
    perform(&repo, &plan, |s| format!("{s}reformatted\n"), same);
    assert_eq!(*repo.added.borrow(), list(&["src/Foo.java"]));
    assert!(repo.read("src/Foo.java").contains("reformatted"));
}

#[test]
fn run_hook_in_check_mode_stages_nothing() {
    let mut repo = Repo::new(&[("src/Foo.kt", "package foo   \n")]);
    repo.staged = list(&["src/Foo.kt"]);
    let mut cfg = config_inproc_only();
    cfg.hook = Hook { mode: HookMode::Check };
    let plan = run_hook(&cfg, &repo, ROOT, &texts(), 2026, false).unwrap().unwrap();
    let out = perform(&repo, &plan, same, same);
    assert!(out.check_failed);
    assert!(repo.added.borrow().is_empty());
    assert_eq!(repo.read("src/Foo.kt"), "package foo   \n");
}

#[test]
fn global_excludes_apply_unless_forced() {
    let repo = Repo::new(&[("build/A.kt", "x  \n")]);
    let cfg = Config::default();
    let plan = |force| {
        let scope = Scope::Explicit { files: list(&["build/A.kt"]), force };
        run_format(&cfg, &repo, ROOT, &FileTexts::new(), scope, vec![], false, 2026).unwrap()
    };
    assert!(plan(false).is_none());
    assert_eq!(plan(true).unwrap().tasks.len(), 1);
}

#[test]
fn forced_runs_ignore_the_excludes_of_tools() {
    let mut cfg = config_gjf_only();
    cfg.gjf.as_mut().unwrap().paths =
        Some(ToolPaths { includes: None, exclude: Some(GlobList::Inline(list(&["A.java"]))) });
    let matches = |forced| {
        let scopes = ToolScopes::build(&cfg, ROOT, &FileTexts::new(), forced).ok().unwrap();
        (scopes.matches_gjf("A.java"), scopes.matches_gjf("B.java"), scopes.matches_gjf("a.kt"))
    };
    assert_eq!(matches(false), (false, true, false));
    assert_eq!(matches(true), (true, true, false));
}

#[test]
fn errors_of_runs_are_told() {
    let repo = Repo::new(&[("A.kt", "")]);
    let message = |cfg: &Config| {
        run_format(cfg, &repo, ROOT, &FileTexts::new(), Scope::All, vec![], false, 2026)
            .err()
            .unwrap()
            .message()
    };
    let mut cfg = Config::default();
    cfg.paths = Paths { exclude: GlobList::Inline(list(&["[bad"])) };
    assert!(message(&cfg).contains("[bad"));
    cfg.paths = Paths { exclude: GlobList::FromFile("ignore.txt".into()) };
    assert!(message(&cfg).contains("ignore.txt"));
    assert!(message(&config_inproc_only()).contains("config/header.txt"));
    let mut cfg = config_gjf_only();
    cfg.gjf.as_mut().unwrap().paths =
        Some(ToolPaths { includes: Some(GlobList::Inline(list(&["{"]))), exclude: None });
    assert!(message(&cfg).contains("{"));
}

#[test]
fn hooks_are_decided_by_the_staging() {
    let files = list(&["A.java", "b.rs"]);
    let decide = |staging, allow| {
        decide_hook(&config_gjf_only(), ROOT, &FileTexts::new(), &files, staging, allow)
    };
    let safe = decide(StagingCheck::Safe, false).ok().unwrap();
    assert_eq!(safe.normal, files);
    assert!(safe.partial_gjf.is_empty());
    let partial = || StagingCheck::PartialStage { files: list(&["A.java"]) };
    assert!(decide(partial(), false).is_err());
    let allowed = decide(partial(), true).ok().unwrap();
    assert_eq!(allowed.partial_gjf, list(&["A.java"]));
    assert_eq!(allowed.normal, list(&["b.rs"]));
}

#[test]
fn checks_of_jvm_formatters_are_merged() {
    let mut out = FormatOutcome::default();
    merge_jvm_check_run(
        &mut out,
        ROOT,
        CheckRun { success: true, paths: vec![], stderr: String::new() },
    );
    assert!(!out.check_failed && out.changed.len() == 0);
    merge_jvm_check_run(
        &mut out,
        ROOT,
        CheckRun { success: false, paths: list(&["/repo/a.kt", "b.kt"]), stderr: "e".into() },
    );
    assert!(out.check_failed && out.has_parse_errors());
    assert_eq!(out.parse_errors, "e");
    assert_eq!(out.changed.into_vec(), list(&["a.kt", "b.kt"]));
}

#[test]
fn rustfmt_is_called_through_cargo() {
    assert_eq!(cargo_fmt_args(true, &list(&["a.rs"])), list(&["fmt", "--check", "--", "a.rs"]));
    assert_eq!(cargo_fmt_args(false, &list(&["a.rs"])), list(&["fmt", "--", "a.rs"]));
    let output = |success| ToolOutput {
        success,
        code: Some(1),
        stdout: "diff".into(),
        stderr: String::new(),
    };
    assert!(interpret_rustfmt(&output(true)).is_ok());
    assert!(interpret_rustfmt(&output(false)).unwrap_err().message.contains("diff"));
}

#[test]
fn partial_formatting_is_an_experiment() {
    assert!(!experimental_partial_gjf_enabled(None));
    assert!(experimental_partial_gjf_enabled(Some("1")));
    assert!(!experimental_partial_gjf_enabled(Some("0")));
    assert_eq!(partial_gjf_args(GjfStyle::Aosp, &vec![], "x"), None);
}
