//! File collection.
//!
//! The files of a run are collected in two steps: [`collect_universe`] gives
//! every candidate path for the chosen [`Scope`], and
//! [`apply_global_excludes`] drops those that the `[paths].exclude` patterns
//! accept. Which tool takes which of the rest is decided where it is used, with
//! the sets of [`tool_globset`].

use crate::chars;
use crate::config::ResolvedPaths;
use crate::fspath;
use crate::git::GitContext;
use crate::git::GitError;
use crate::globs;
use crate::globs::GlobError;
use crate::text;
use vstd::prelude::*;

verus! {

/// Which files a run looks at.
#[derive(Debug, Clone, PartialEq, Eq)]
pub enum Scope {
    /// All tracked files.
    All,
    /// The files in the index.
    Staged,
    /// All files below the repository root. Ignore files are not consulted;
    /// `.git` directories are always left out.
    Walk,
    /// Files expanded from targets on the command line. Global and per-tool
    /// excludes apply unless `force` is set; per-tool includes always apply.
    Explicit { files: Vec<String>, force: bool },
}

/// What stands at a target of the command line.
#[derive(Debug, PartialEq, Eq)]
pub enum Found {
    /// Nothing.
    Absent,
    /// A file, at this canonical path.
    File { canonical: String },
    /// A directory, at this canonical path, with the files below it relative
    /// to the repository root.
    Directory { canonical: String, files: Vec<String> },
    /// Something else, at this canonical path.
    Special { canonical: String },
}

/// A target of the command line and what stands there.
#[derive(Debug, PartialEq, Eq)]
pub struct Target {
    pub text: String,
    pub found: Found,
}

/// What is wrong with a target.
#[derive(Debug, Clone, Copy, PartialEq, Eq, Structural)]
pub enum TargetFault {
    /// The current directory is not inside the repository.
    CurrentDirectoryOutside,
    /// The path is not inside the repository.
    PathOutside,
    /// The path is neither a file nor a directory.
    NotFileOrDirectory,
    /// There is nothing at the path, and it is no pattern.
    NotFound,
    /// The pattern goes up beyond the root of the file system.
    PatternEscapes,
    /// The pattern is not inside the repository.
    PatternOutside,
    /// The text is no glob pattern.
    InvalidPattern,
    /// The pattern accepts no file.
    NoMatch,
}

/// A rejected target.
#[derive(Debug, PartialEq, Eq)]
pub struct TargetError {
    pub fault: TargetFault,
    /// The target as given; taken from the current directory where it goes up
    /// beyond the root, and the current directory itself where that is at fault.
    pub target: String,
    /// The words of the `globset` crate, where the pattern is invalid.
    pub cause: String,
}

impl TargetError {
    /// What the error says.
    pub open spec fn text(self) -> Seq<char> {
        match self.fault {
            TargetFault::CurrentDirectoryOutside => "current directory "@ + self.target@
                + " is outside the repo root"@,
            TargetFault::PathOutside => "path "@ + self.target@ + " is outside the repo root"@,
            TargetFault::NotFileOrDirectory => "path is not a file or directory: "@ + self.target@,
            TargetFault::NotFound => "path not found: "@ + self.target@,
            TargetFault::PatternEscapes => "pattern escapes the filesystem root: "@ + self.target@,
            TargetFault::PatternOutside => "pattern "@ + self.target@
                + " is outside the repo root"@,
            TargetFault::InvalidPattern => "invalid target pattern: "@ + self.target@ + ": "@
                + self.cause@,
            TargetFault::NoMatch => "pattern matched no files: "@ + self.target@,
        }
    }

    /// What the error says.
    pub fn message(&self) -> (r: String)
        ensures
            r@ == self.text(),
    {
        let (before, after) = match self.fault {
            TargetFault::CurrentDirectoryOutside => (
                "current directory ",
                " is outside the repo root",
            ),
            TargetFault::PathOutside => ("path ", " is outside the repo root"),
            TargetFault::NotFileOrDirectory => ("path is not a file or directory: ", ""),
            TargetFault::NotFound => ("path not found: ", ""),
            TargetFault::PatternEscapes => ("pattern escapes the filesystem root: ", ""),
            TargetFault::PatternOutside => ("pattern ", " is outside the repo root"),
            TargetFault::InvalidPattern => ("invalid target pattern: ", ": "),
            TargetFault::NoMatch => ("pattern matched no files: ", ""),
        };
        let mut s = before.to_owned();
        s.push_str(&self.target);
        s.push_str(after);
        match self.fault {
            TargetFault::InvalidPattern => {
                s.push_str(&self.cause);
            },
            _ => {},
        }
        proof {
            reveal_strlit("");
            assert(forall|x: Seq<char>| x + ""@ =~= x);
        }
        s
    }
}

/// A character that makes a target a pattern.
pub open spec fn is_glob_meta(c: char) -> bool {
    c == '*' || c == '?' || c == '[' || c == '{'
}

/// The text holds a character that makes it a pattern.
pub open spec fn has_glob_meta(s: Seq<char>) -> bool {
    exists|i: int| 0 <= i < s.len() && is_glob_meta(#[trigger] s[i])
}

/// The files that a pattern accepts, in order.
pub open spec fn accepted_by(files: Seq<Seq<char>>, pattern: Seq<char>) -> Seq<Seq<char>>
    decreases files.len(),
{
    if files.len() == 0 {
        Seq::empty()
    } else {
        let rest = accepted_by(files.drop_last(), pattern);
        if globs::glob_accepts(pattern, files.last()) {
            rest.push(files.last())
        } else {
            rest
        }
    }
}

/// The files that a target stands for, or what is wrong with it. `tree` are the
/// files of the working tree.
pub open spec fn target_files(
    text: Seq<char>,
    found: Found,
    cwd: Seq<char>,
    root: Seq<char>,
    tree: Seq<Seq<char>>,
) -> Result<Seq<Seq<char>>, TargetFault> {
    match found {
        Found::File { canonical } => match fspath::relative(canonical@, root) {
            Some(rel) => Ok(seq![rel]),
            None => Err(TargetFault::PathOutside),
        },
        Found::Directory { canonical, files } => if fspath::within(canonical@, root) {
            Ok(chars::views(files@))
        } else {
            Err(TargetFault::PathOutside)
        },
        Found::Special { canonical } => if fspath::within(canonical@, root) {
            Err(TargetFault::NotFileOrDirectory)
        } else {
            Err(TargetFault::PathOutside)
        },
        Found::Absent => if !has_glob_meta(text) {
            Err(TargetFault::NotFound)
        } else {
            match fspath::resolved(fspath::parts(fspath::joined(cwd, text))) {
                None => Err(TargetFault::PatternEscapes),
                Some(ps) => match fspath::relative(fspath::written(ps), root) {
                    None => Err(TargetFault::PatternOutside),
                    Some(pattern) => if !globs::well_formed(seq![pattern]) {
                        Err(TargetFault::InvalidPattern)
                    } else if accepted_by(tree, pattern).len() == 0 {
                        Err(TargetFault::NoMatch)
                    } else {
                        Ok(accepted_by(tree, pattern))
                    },
                },
            }
        },
    }
}

/// How a rejected target is named.
pub open spec fn named_target(fault: TargetFault, text: Seq<char>, cwd: Seq<char>) -> Seq<char> {
    if fault == TargetFault::PatternEscapes {
        fspath::joined(cwd, text)
    } else {
        text
    }
}

/// The files of the first `n` targets in path order, each once; or the first
/// target that has something wrong with it, and what.
pub open spec fn targets_outcome(
    targets: Seq<Target>,
    n: int,
    cwd: Seq<char>,
    root: Seq<char>,
    tree: Seq<Seq<char>>,
) -> Result<Seq<Seq<char>>, (TargetFault, int)>
    decreases n,
{
    if n <= 0 {
        Ok(Seq::empty())
    } else {
        match targets_outcome(targets, n - 1, cwd, root, tree) {
            Err(e) => Err(e),
            Ok(sofar) => match target_files(
                targets[n - 1].text@,
                targets[n - 1].found,
                cwd,
                root,
                tree,
            ) {
                Ok(files) => Ok(fspath::inserted_all(sofar, files)),
                Err(fault) => Err((fault, n - 1)),
            },
        }
    }
}

fn contains_glob_meta(s: &str) -> (r: bool)
    ensures
        r == has_glob_meta(s@),
{
    let v = text::chars_of(s);
    let mut i: usize = 0;
    while i < v.len()
        invariant
            i <= v.len(),
            v@ == s@,
            forall|j: int| 0 <= j < i ==> !is_glob_meta(#[trigger] v@[j]),
        decreases v.len() - i,
    {
        let c = v[i];
        if c == '*' || c == '?' || c == '[' || c == '{' {
            assert(is_glob_meta(v@[i as int]));
            return true;
        }
        i += 1;
    }
    false
}

/// The target taken from the current directory, with `.` and `..` resolved
/// without a look at the file system.
fn normalize_pattern(target: &str, cwd: &str) -> (r: Option<String>)
    ensures
        match r {
            Some(t) => fspath::resolved(fspath::parts(fspath::joined(cwd@, target@))) is Some && t@
                == fspath::written(
                fspath::resolved(fspath::parts(fspath::joined(cwd@, target@)))->0,
            ),
            None => fspath::resolved(fspath::parts(fspath::joined(cwd@, target@))) is None,
        },
{
    fspath::normalize(&fspath::join(cwd, target))
}

/// The files of the tree that the pattern accepts.
fn matching_files(set: &globset::GlobSet, tree: &Vec<String>, Ghost(pattern): Ghost<Seq<char>>) -> (r:
    Vec<String>)
    requires
        globs::set_patterns(*set) == seq![pattern],
    ensures
        chars::views(r@) == accepted_by(chars::views(tree@), pattern),
{
    let ghost all = chars::views(tree@);
    let mut r: Vec<String> = Vec::new();
    let mut i: usize = 0;
    assert(chars::views(r@) =~= accepted_by(all.take(0), pattern));
    while i < tree.len()
        invariant
            i <= tree.len(),
            all == chars::views(tree@),
            globs::set_patterns(*set) == seq![pattern],
            chars::views(r@) == accepted_by(all.take(i as int), pattern),
        decreases tree.len() - i,
    {
        let ghost before = chars::views(r@);
        assert(all.take(i + 1).drop_last() =~= all.take(i as int));
        assert(all[i as int] == tree@[i as int]@);
        let hit = globs::is_match(set, &tree[i]);
        assert(hit == globs::glob_accepts(pattern, all[i as int])) by {
            assert(seq![pattern][0] == pattern);
        }
        if hit {
            r.push(tree[i].clone());
            assert(chars::views(r@) =~= before.push(all[i as int]));
        }
        i += 1;
    }
    assert(all.take(i as int) =~= all);
    r
}

/// The files that one target stands for, or what is wrong with it.
fn resolve_target(target: &Target, cwd: &str, root: &str, tree: &Vec<String>) -> (r: Result<
    Vec<String>,
    TargetError,
>)
    ensures
        match r {
            Ok(files) => target_files(
                target.text@,
                target.found,
                cwd@,
                root@,
                chars::views(tree@),
            ) == Ok::<_, TargetFault>(chars::views(files@)),
            Err(e) => target_files(target.text@, target.found, cwd@, root@, chars::views(tree@))
                == Err::<Seq<Seq<char>>, _>(e.fault) && e.target@ == named_target(
                e.fault,
                target.text@,
                cwd@,
            ),
        },
{
    let fault = match &target.found {
        Found::File { canonical } => {
            match fspath::strip_prefix(canonical, root) {
                Some(rel) => {
                    let mut files: Vec<String> = Vec::new();
                    files.push(rel);
                    assert(chars::views(files@) =~= seq![rel@]);
                    return Ok(files);
                },
                None => TargetFault::PathOutside,
            }
        },
        Found::Directory { canonical, files } => {
            if fspath::strip_prefix(canonical, root).is_some() {
                let found = files.clone();
                assert(chars::views(found@) =~= chars::views(files@));
                return Ok(found);
            }
            TargetFault::PathOutside
        },
        Found::Special { canonical } => {
            if fspath::strip_prefix(canonical, root).is_some() {
                TargetFault::NotFileOrDirectory
            } else {
                TargetFault::PathOutside
            }
        },
        Found::Absent => {
            if !contains_glob_meta(&target.text) {
                TargetFault::NotFound
            } else {
                match normalize_pattern(&target.text, cwd) {
                    None => {
                        return Err(
                            TargetError {
                                fault: TargetFault::PatternEscapes,
                                target: fspath::join(cwd, &target.text),
                                cause: String::new(),
                            },
                        );
                    },
                    Some(normalized) => match fspath::strip_prefix(&normalized, root) {
                        None => TargetFault::PatternOutside,
                        Some(pattern) => {
                            let mut one: Vec<String> = Vec::new();
                            let ghost p = pattern@;
                            one.push(pattern);
                            assert(chars::views(one@) =~= seq![p]);
                            match globs::compile(&one) {
                                Err(e) => {
                                    let cause = match e {
                                        GlobError::BadPattern { cause, .. } => cause,
                                        GlobError::NotBuilt { cause } => cause,
                                    };
                                    return Err(
                                        TargetError {
                                            fault: TargetFault::InvalidPattern,
                                            target: target.text.clone(),
                                            cause,
                                        },
                                    );
                                },
                                Ok(set) => {
                                    let files = matching_files(&set, tree, Ghost(p));
                                    assert(chars::views(files@).len() == files@.len());
                                    if files.len() > 0 {
                                        return Ok(files);
                                    }
                                    TargetFault::NoMatch
                                },
                            }
                        },
                    },
                }
            }
        },
    };
    Err(TargetError { fault, target: target.text.clone(), cause: String::new() })
}

/// Resolves the targets of the command line to files relative to the
/// repository root, in path order and each once.
///
/// Files stand for themselves, directories for the files below them, and other
/// targets are patterns over the files of the working tree (`tree`). Relative
/// targets are taken from `canonical_cwd`; what is outside `canonical_root` is
/// rejected. `cwd` is the current directory as it is shown in messages.
pub fn resolve_explicit_targets(
    targets: &Vec<Target>,
    cwd: &str,
    canonical_cwd: &str,
    canonical_root: &str,
    tree: &Vec<String>,
) -> (r: Result<Vec<String>, TargetError>)
    ensures
        !fspath::within(canonical_cwd@, canonical_root@) ==> (r matches Err(e) && e.fault
            == TargetFault::CurrentDirectoryOutside && e.target@ == cwd@),
        fspath::within(canonical_cwd@, canonical_root@) ==> match targets_outcome(
            targets@,
            targets@.len() as int,
            canonical_cwd@,
            canonical_root@,
            chars::views(tree@),
        ) {
            Ok(files) => r matches Ok(v) && chars::views(v@) == files,
            Err((fault, i)) => r matches Err(e) && e.fault == fault && e.target@ == named_target(
                fault,
                targets@[i].text@,
                canonical_cwd@,
            ),
        },
{
    if fspath::strip_prefix(canonical_cwd, canonical_root).is_none() {
        return Err(
            TargetError {
                fault: TargetFault::CurrentDirectoryOutside,
                target: cwd.to_owned(),
                cause: String::new(),
            },
        );
    }
    let ghost all = chars::views(tree@);
    let mut resolved = fspath::PathSet::new();
    let mut i: usize = 0;
    while i < targets.len()
        invariant
            i <= targets.len(),
            all == chars::views(tree@),
            fspath::within(canonical_cwd@, canonical_root@),
            targets_outcome(targets@, i as int, canonical_cwd@, canonical_root@, all) == Ok::<
                _,
                (TargetFault, int),
            >(resolved@),
        decreases targets.len() - i,
    {
        match resolve_target(&targets[i], canonical_cwd, canonical_root, tree) {
            Ok(files) => {
                resolved.extend(&files);
            },
            Err(e) => {
                proof {
                    lemma_first_fault(
                        targets@,
                        i + 1,
                        targets@.len() as int,
                        canonical_cwd@,
                        canonical_root@,
                        all,
                    );
                }
                return Err(e);
            },
        }
        i += 1;
    }
    Ok(resolved.into_vec())
}

/// The first fault stays the outcome whatever targets follow.
proof fn lemma_first_fault(
    targets: Seq<Target>,
    k: int,
    n: int,
    cwd: Seq<char>,
    root: Seq<char>,
    tree: Seq<Seq<char>>,
)
    requires
        0 <= k <= n,
        targets_outcome(targets, k, cwd, root, tree) is Err,
    ensures
        targets_outcome(targets, n, cwd, root, tree) == targets_outcome(
            targets,
            k,
            cwd,
            root,
            tree,
        ),
    decreases n - k,
{
    if k < n {
        lemma_first_fault(targets, k, n - 1, cwd, root, tree);
    }
}

/// Resolved targets come in path order without repetitions.
pub proof fn resolved_targets_are_increasing(
    targets: Seq<Target>,
    n: int,
    cwd: Seq<char>,
    root: Seq<char>,
    tree: Seq<Seq<char>>,
)
    ensures
        targets_outcome(targets, n, cwd, root, tree) matches Ok(files) ==> fspath::increasing(
            files,
        ),
    decreases n,
{
    if n > 0 {
        resolved_targets_are_increasing(targets, n - 1, cwd, root, tree);
        match targets_outcome(targets, n - 1, cwd, root, tree) {
            Ok(sofar) => match target_files(
                targets[n - 1].text@,
                targets[n - 1].found,
                cwd,
                root,
                tree,
            ) {
                Ok(files) => {
                    lemma_inserted_all_increasing(sofar, files);
                },
                Err(_) => {},
            },
            Err(_) => {},
        }
    }
}

proof fn lemma_inserted_all_increasing(s: Seq<Seq<char>>, more: Seq<Seq<char>>)
    requires
        fspath::increasing(s),
    ensures
        fspath::increasing(fspath::inserted_all(s, more)),
    decreases more.len(),
{
    if more.len() > 0 {
        lemma_inserted_all_increasing(s, more.drop_last());
        fspath::inserting_keeps_order(
            fspath::inserted_all(s, more.drop_last()),
            more.last(),
        );
    }
}

/// Every file of every target is among the resolved ones.
pub proof fn resolved_targets_hold_every_file(
    targets: Seq<Target>,
    n: int,
    k: int,
    cwd: Seq<char>,
    root: Seq<char>,
    tree: Seq<Seq<char>>,
    file: Seq<char>,
)
    requires
        0 <= k < n,
        targets_outcome(targets, n, cwd, root, tree) is Ok,
        target_files(targets[k].text@, targets[k].found, cwd, root, tree) matches Ok(files)
            && files.contains(file),
    ensures
        fspath::holds_path(targets_outcome(targets, n, cwd, root, tree)->Ok_0, file),
    decreases n,
{
    let sofar = targets_outcome(targets, n - 1, cwd, root, tree)->Ok_0;
    let files = target_files(targets[n - 1].text@, targets[n - 1].found, cwd, root, tree)->Ok_0;
    resolved_targets_are_increasing(targets, n - 1, cwd, root, tree);
    lemma_inserted_all_holds(sofar, files, file);
    if k < n - 1 {
        resolved_targets_hold_every_file(targets, n - 1, k, cwd, root, tree, file);
    }
}

/// The file is one of those that the target stands for.
pub open spec fn is_file_of(
    target: Target,
    cwd: Seq<char>,
    root: Seq<char>,
    tree: Seq<Seq<char>>,
    file: Seq<char>,
) -> bool {
    target_files(target.text@, target.found, cwd, root, tree) matches Ok(files) && files.contains(
        file,
    )
}

/// Nothing but files of the targets is among the resolved ones.
pub proof fn resolved_targets_hold_nothing_else(
    targets: Seq<Target>,
    n: int,
    cwd: Seq<char>,
    root: Seq<char>,
    tree: Seq<Seq<char>>,
    file: Seq<char>,
)
    requires
        targets_outcome(targets, n, cwd, root, tree) matches Ok(files) && files.contains(file),
    ensures
        exists|k: int| 0 <= k < n && is_file_of(#[trigger] targets[k], cwd, root, tree, file),
    decreases n,
{
    if n > 0 {
        let sofar = targets_outcome(targets, n - 1, cwd, root, tree)->Ok_0;
        let last = targets[n - 1];
        let files = target_files(last.text@, last.found, cwd, root, tree)->Ok_0;
        resolved_targets_are_increasing(targets, n - 1, cwd, root, tree);
        lemma_inserted_all_comes_from(sofar, files, file);
        if files.contains(file) {
            assert(is_file_of(targets[n - 1], cwd, root, tree, file));
        } else {
            resolved_targets_hold_nothing_else(targets, n - 1, cwd, root, tree, file);
        }
    }
}

proof fn lemma_inserted_all_comes_from(s: Seq<Seq<char>>, more: Seq<Seq<char>>, file: Seq<char>)
    requires
        fspath::increasing(s),
        fspath::inserted_all(s, more).contains(file),
    ensures
        s.contains(file) || more.contains(file),
    decreases more.len(),
{
    if more.len() > 0 {
        let init = more.drop_last();
        let before = fspath::inserted_all(s, init);
        let all = fspath::inserted_all(s, more);
        lemma_inserted_all_increasing(s, init);
        fspath::inserting_keeps_order(before, more.last());
        let i = choose|i: int| 0 <= i < all.len() && all[i] == file;
        assert(all[i] == more.last() || before.contains(all[i]));
        if file == more.last() {
            assert(more[more.len() - 1] == file);
        } else {
            lemma_inserted_all_comes_from(s, init, file);
            if init.contains(file) {
                let k = choose|k: int| 0 <= k < init.len() && init[k] == file;
                assert(more[k] == file);
            }
        }
    }
}

proof fn lemma_inserted_all_holds(s: Seq<Seq<char>>, more: Seq<Seq<char>>, file: Seq<char>)
    requires
        fspath::increasing(s),
    ensures
        more.contains(file) || fspath::holds_path(s, file) ==> fspath::holds_path(
            fspath::inserted_all(s, more),
            file,
        ),
    decreases more.len(),
{
    if more.len() > 0 {
        let init = more.drop_last();
        lemma_inserted_all_holds(s, init, file);
        lemma_inserted_all_increasing(s, init);
        fspath::inserting_keeps_order(fspath::inserted_all(s, init), more.last());
        if more.contains(file) && !init.contains(file) {
            let i = choose|i: int| 0 <= i < more.len() && more[i] == file;
            if i < more.len() - 1 {
                assert(init[i] == file);
            }
        }
        assert(fspath::holds_path(fspath::inserted_all(s, more), file) == (fspath::parts(file)
            == fspath::parts(more.last()) || fspath::holds_path(
            fspath::inserted_all(s, init),
            file,
        )));
    }
}

/// Collects the candidate files of a scope without any filter. `walked` are the
/// files below the repository root.
pub fn collect_universe<G: GitContext>(git: &G, scope: Scope, walked: Vec<String>) -> (r: Result<
    Vec<String>,
    GitError,
>)
    ensures
        match scope {
            Scope::All => call_ensures(G::ls_files, (git,), r),
            Scope::Staged => call_ensures(G::staged_files, (git,), r),
            Scope::Walk => r == Ok::<Vec<String>, GitError>(walked),
            Scope::Explicit { files, .. } => r == Ok::<Vec<String>, GitError>(files),
        },
{
    match scope {
        Scope::All => git.ls_files(),
        Scope::Staged => git.staged_files(),
        Scope::Walk => Ok(walked),
        Scope::Explicit { files, .. } => Ok(files),
    }
}

/// The paths that no pattern accepts, in order.
pub open spec fn not_excluded(files: Seq<Seq<char>>, patterns: Seq<Seq<char>>) -> Seq<Seq<char>> {
    files.filter(|p: Seq<char>| !globs::any_accepts(patterns, p))
}

/// Drops the paths that the set accepts.
pub fn apply_global_excludes(files: Vec<String>, exclude: &globset::GlobSet) -> (r: Vec<String>)
    ensures
        chars::views(r@) == not_excluded(chars::views(files@), globs::set_patterns(*exclude)),
{
    let ghost all = chars::views(files@);
    let ghost patterns = globs::set_patterns(*exclude);
    let ghost keep = |p: Seq<char>| !globs::any_accepts(patterns, p);
    let mut r: Vec<String> = Vec::new();
    let mut i: usize = 0;
    assert(chars::views(r@) =~= all.take(0).filter(keep)) by {
        reveal(Seq::filter);
    }
    while i < files.len()
        invariant
            i <= files.len(),
            all == chars::views(files@),
            patterns == globs::set_patterns(*exclude),
            keep == (|p: Seq<char>| !globs::any_accepts(patterns, p)),
            chars::views(r@) == all.take(i as int).filter(keep),
        decreases files.len() - i,
    {
        let ghost before = chars::views(r@);
        proof {
            assert(all.take(i + 1) =~= all.take(i as int).push(all[i as int]));
            all.take(i as int).lemma_filter_push(all[i as int], keep);
            assert(all[i as int] == files@[i as int]@);
        }
        if !globs::is_match(exclude, &files[i]) {
            r.push(files[i].clone());
            assert(chars::views(r@) =~= before.push(all[i as int]));
        }
        i += 1;
    }
    assert(all.take(i as int) =~= all);
    r
}

/// Makes a set of the patterns.
pub fn build_globset(patterns: &Vec<String>) -> (r: Result<globset::GlobSet, GlobError>)
    ensures
        match r {
            Ok(set) => globs::well_formed(chars::views(patterns@)) && globs::set_patterns(set)
                == chars::views(patterns@),
            Err(e) => !globs::well_formed(chars::views(patterns@)) && e.is_for(
                chars::views(patterns@),
            ),
        },
{
    globs::compile(patterns)
}

/// Which of a tool's two lists holds invalid patterns.
#[derive(Debug, PartialEq, Eq)]
pub enum ToolGlobError {
    Includes(GlobError),
    Excludes(GlobError),
}

impl ToolGlobError {
    /// What the error says.
    pub open spec fn text(self) -> Seq<char> {
        match self {
            ToolGlobError::Includes(e) => "invalid include glob: "@ + e.text(),
            ToolGlobError::Excludes(e) => "invalid exclude glob: "@ + e.text(),
        }
    }

    /// What the error says.
    pub fn message(&self) -> (r: String)
        ensures
            r@ == self.text(),
    {
        let (before, inner) = match self {
            ToolGlobError::Includes(e) => ("invalid include glob: ", e.message()),
            ToolGlobError::Excludes(e) => ("invalid exclude glob: ", e.message()),
        };
        let mut s = before.to_owned();
        s.push_str(&inner);
        s
    }
}

/// Makes the sets of a tool's include and exclude patterns.
pub fn tool_globset(rp: &ResolvedPaths) -> (r: Result<
    (globset::GlobSet, globset::GlobSet),
    ToolGlobError,
>)
    ensures
        match r {
            Ok((inc, exc)) => globs::well_formed(chars::views(rp.includes@)) && globs::well_formed(
                chars::views(rp.exclude@),
            ) && globs::set_patterns(inc) == chars::views(rp.includes@) && globs::set_patterns(exc)
                == chars::views(rp.exclude@),
            Err(ToolGlobError::Includes(e)) => !globs::well_formed(chars::views(rp.includes@))
                && e.is_for(chars::views(rp.includes@)),
            Err(ToolGlobError::Excludes(e)) => globs::well_formed(chars::views(rp.includes@))
                && !globs::well_formed(chars::views(rp.exclude@)) && e.is_for(
                chars::views(rp.exclude@),
            ),
        },
{
    let inc = match build_globset(&rp.includes) {
        Ok(set) => set,
        Err(e) => {
            return Err(ToolGlobError::Includes(e));
        },
    };
    let exc = match build_globset(&rp.exclude) {
        Ok(set) => set,
        Err(e) => {
            return Err(ToolGlobError::Excludes(e));
        },
    };
    Ok((inc, exc))
}

/// An entry met on a walk through a directory.
#[derive(Debug, PartialEq, Eq)]
pub struct WalkEntry {
    pub path: String,
    pub is_file: bool,
}

/// Whether a walk leaves an entry out, with all that is below it: directories
/// named `.git` are never entered.
pub fn prunes(name: &str, is_dir: bool) -> (r: bool)
    ensures
        r == (is_dir && name@ == ".git"@),
{
    is_dir && text::same(name, ".git")
}

/// The files among the entries, relative to the root; nothing where one is not
/// within it.
pub open spec fn walked_files(entries: Seq<WalkEntry>, root: Seq<char>) -> Option<Seq<Seq<char>>>
    decreases entries.len(),
{
    if entries.len() == 0 {
        Some(Seq::empty())
    } else {
        match walked_files(entries.drop_last(), root) {
            None => None,
            Some(rest) => if !entries.last().is_file {
                Some(rest)
            } else {
                match fspath::relative(entries.last().path@, root) {
                    Some(rel) => Some(rest.push(rel)),
                    None => None,
                }
            },
        }
    }
}

/// The files among the entries of a walk, relative to the root. Where an entry
/// is not within it, that entry's path.
pub fn walk_tree(entries: &Vec<WalkEntry>, repo_root: &str) -> (r: Result<Vec<String>, String>)
    ensures
        match r {
            Ok(files) => walked_files(entries@, repo_root@) == Some(chars::views(files@)),
            Err(path) => walked_files(entries@, repo_root@) is None && exists|i: int|
                0 <= i < entries@.len() && (#[trigger] entries@[i]).path@ == path@
                    && entries@[i].is_file && !fspath::within(path@, repo_root@),
        },
{
    let mut files: Vec<String> = Vec::new();
    let mut i: usize = 0;
    assert(chars::views(files@) =~= Seq::empty());
    while i < entries.len()
        invariant
            i <= entries.len(),
            walked_files(entries@.take(i as int), repo_root@) == Some(chars::views(files@)),
        decreases entries.len() - i,
    {
        let ghost before = chars::views(files@);
        assert(entries@.take(i + 1).drop_last() =~= entries@.take(i as int));
        if entries[i].is_file {
            match fspath::strip_prefix(&entries[i].path, repo_root) {
                Some(rel) => {
                    files.push(rel);
                    assert(chars::views(files@) =~= before.push(rel@));
                },
                None => {
                    proof {
                        lemma_walk_outside(entries@, i + 1, repo_root@);
                    }
                    return Err(entries[i].path.clone());
                },
            }
        }
        i += 1;
    }
    assert(entries@.take(i as int) =~= entries@);
    Ok(files)
}

proof fn lemma_walk_outside(entries: Seq<WalkEntry>, i: int, root: Seq<char>)
    requires
        0 <= i <= entries.len(),
        walked_files(entries.take(i), root) is None,
    ensures
        walked_files(entries, root) is None,
    decreases entries.len() - i,
{
    if i < entries.len() {
        assert(entries.take(i + 1).drop_last() =~= entries.take(i));
        lemma_walk_outside(entries, i + 1, root);
    } else {
        assert(entries.take(i) =~= entries);
    }
}

/// A target that is a file stands for itself, by its way from the root, and one
/// that is a directory for the files below it; both have to lie within the
/// root, which the root itself does.
pub proof fn existing_targets(
    text: Seq<char>,
    found: Found,
    cwd: Seq<char>,
    root: Seq<char>,
    tree: Seq<Seq<char>>,
)
    ensures
        found matches Found::File { canonical } ==> match target_files(
            text,
            found,
            cwd,
            root,
            tree,
        ) {
            Ok(files) => files.len() == 1 && fspath::parts(canonical@) == fspath::parts(root)
                + fspath::parts(files[0]),
            Err(fault) => fault == TargetFault::PathOutside && !fspath::within(canonical@, root),
        },
        found matches Found::Directory { canonical, files } ==> match target_files(
            text,
            found,
            cwd,
            root,
            tree,
        ) {
            Ok(all) => all.len() == files@.len() && forall|j: int|
                0 <= j < files@.len() ==> #[trigger] all[j] == files@[j]@,
            Err(fault) => fault == TargetFault::PathOutside && !fspath::within(canonical@, root),
        },
        found matches Found::Special { canonical } ==> target_files(text, found, cwd, root, tree)
            == Err::<Seq<Seq<char>>, TargetFault>(
            if fspath::within(canonical@, root) {
                TargetFault::NotFileOrDirectory
            } else {
                TargetFault::PathOutside
            },
        ),
        (found matches Found::File { canonical } && fspath::parts(canonical@)
            == fspath::parts(root)) ==> target_files(text, found, cwd, root, tree) is Ok,
        (found matches Found::Directory { canonical, .. } && fspath::parts(canonical@)
            == fspath::parts(root)) ==> target_files(text, found, cwd, root, tree) is Ok,
{
    match found {
        Found::File { canonical } => {
            fspath::relative_paths_lead_there(canonical@, root);
            if fspath::parts(canonical@) == fspath::parts(root) {
                let p = fspath::parts(root);
                assert(p =~= p.take(p.len() as int));
            }
        },
        Found::Directory { canonical, files } => {
            if fspath::parts(canonical@) == fspath::parts(root) {
                let p = fspath::parts(root);
                assert(p =~= p.take(p.len() as int));
            }
        },
        _ => {},
    }
}

/// A target that does not exist is a pattern where it holds `*`, `?`, `[` or
/// `{`, and an error else. A pattern stands for just the files of the tree that
/// it accepts, of which there has to be one, where `pattern` leads from the root
/// to what the target resolves to.
pub proof fn absent_targets_are_patterns(
    text: Seq<char>,
    found: Found,
    cwd: Seq<char>,
    root: Seq<char>,
    tree: Seq<Seq<char>>,
    pattern: Seq<char>,
    file: Seq<char>,
)
    requires
        found is Absent,
    ensures
        !text.contains('*') && !text.contains('?') && !text.contains('[') && !text.contains('{')
            ==> target_files(text, found, cwd, root, tree) == Err::<Seq<Seq<char>>, TargetFault>(
            TargetFault::NotFound,
        ),
        (text.contains('*') || text.contains('?') || text.contains('[') || text.contains('{')) && (
        fspath::resolved(fspath::parts(fspath::joined(cwd, text))) matches Some(ps)
            && fspath::relative(fspath::written(ps), root) == Some(pattern))
            && globs::well_formed(seq![pattern]) ==> {
            let r = target_files(text, found, cwd, root, tree);
            &&& r is Ok <==> exists|i: int|
                0 <= i < tree.len() && globs::glob_accepts(pattern, #[trigger] tree[i])
            &&& r matches Err(fault) ==> fault == TargetFault::NoMatch
            &&& r matches Ok(files) ==> files == tree.filter(
                |f: Seq<char>| globs::glob_accepts(pattern, f),
            )
            &&& r matches Ok(files) ==> (files.contains(file) <==> tree.contains(file)
                && globs::glob_accepts(pattern, file))
        },
        (text.contains('*') || text.contains('?') || text.contains('[') || text.contains('{')) ==> (
        fspath::resolved(fspath::parts(fspath::joined(cwd, text))) is None <==> target_files(
            text,
            found,
            cwd,
            root,
            tree,
        ) == Err::<Seq<Seq<char>>, TargetFault>(TargetFault::PatternEscapes)),
        (text.contains('*') || text.contains('?') || text.contains('[') || text.contains('{')) && (
        fspath::resolved(fspath::parts(fspath::joined(cwd, text))) matches Some(ps)
            && !fspath::within(fspath::written(ps), root)) ==> target_files(
            text,
            found,
            cwd,
            root,
            tree,
        ) == Err::<Seq<Seq<char>>, TargetFault>(TargetFault::PatternOutside),
        (text.contains('*') || text.contains('?') || text.contains('[') || text.contains('{')) && (
        fspath::resolved(fspath::parts(fspath::joined(cwd, text))) matches Some(ps)
            && fspath::relative(fspath::written(ps), root) == Some(pattern))
            && !globs::well_formed(seq![pattern]) ==> target_files(text, found, cwd, root, tree)
            == Err::<Seq<Seq<char>>, TargetFault>(TargetFault::InvalidPattern),
{
    assert(has_glob_meta(text) <==> text.contains('*') || text.contains('?') || text.contains('[')
        || text.contains('{')) by {
        if text.contains('*') {
            let i = choose|i: int| 0 <= i < text.len() && text[i] == '*';
            assert(is_glob_meta(text[i]));
        }
        if text.contains('?') {
            let i = choose|i: int| 0 <= i < text.len() && text[i] == '?';
            assert(is_glob_meta(text[i]));
        }
        if text.contains('[') {
            let i = choose|i: int| 0 <= i < text.len() && text[i] == '[';
            assert(is_glob_meta(text[i]));
        }
        if text.contains('{') {
            let i = choose|i: int| 0 <= i < text.len() && text[i] == '{';
            assert(is_glob_meta(text[i]));
        }
    }
    let hit = |f: Seq<char>| globs::glob_accepts(pattern, f);
    lemma_accepted_by(tree, pattern);
    let all = tree.filter(hit);
    if all.len() > 0 {
        assert(all.contains(all[0]));
        tree.lemma_filter_pred(hit, 0);
        tree.lemma_filter_contains_rev(hit, all[0]);
        let i = choose|i: int| 0 <= i < tree.len() && tree[i] == all[0];
        assert(globs::glob_accepts(pattern, tree[i]));
    }
    if exists|i: int| 0 <= i < tree.len() && globs::glob_accepts(pattern, #[trigger] tree[i]) {
        let i = choose|i: int|
            0 <= i < tree.len() && globs::glob_accepts(pattern, #[trigger] tree[i]);
        tree.lemma_filter_contains(hit, i);
        assert(all.len() > 0);
    }
    if all.contains(file) {
        tree.lemma_filter_contains_rev(hit, file);
        let k = choose|k: int| 0 <= k < all.len() && all[k] == file;
        tree.lemma_filter_pred(hit, k);
    }
    if tree.contains(file) && globs::glob_accepts(pattern, file) {
        let k = choose|k: int| 0 <= k < tree.len() && tree[k] == file;
        tree.lemma_filter_contains(hit, k);
    }
}

proof fn lemma_accepted_by(files: Seq<Seq<char>>, pattern: Seq<char>)
    ensures
        accepted_by(files, pattern) == files.filter(
            |f: Seq<char>| globs::glob_accepts(pattern, f),
        ),
    decreases files.len(),
{
    reveal(Seq::filter);
    if files.len() > 0 {
        lemma_accepted_by(files.drop_last(), pattern);
    }
}

/// Targets resolve just where each of them does; else the first that does not
/// is reported, with what is wrong with it.
pub proof fn first_bad_target_is_reported(
    targets: Seq<Target>,
    n: int,
    cwd: Seq<char>,
    root: Seq<char>,
    tree: Seq<Seq<char>>,
)
    requires
        0 <= n <= targets.len(),
    ensures
        targets_outcome(targets, n, cwd, root, tree) is Ok <==> forall|k: int|
            0 <= k < n ==> target_files(
                (#[trigger] targets[k]).text@,
                targets[k].found,
                cwd,
                root,
                tree,
            ) is Ok,
        targets_outcome(targets, n, cwd, root, tree) matches Err((fault, i)) ==> {
            &&& 0 <= i < n
            &&& target_files(targets[i].text@, targets[i].found, cwd, root, tree) == Err::<
                Seq<Seq<char>>,
                TargetFault,
            >(fault)
            &&& forall|k: int|
                0 <= k < i ==> target_files(
                    (#[trigger] targets[k]).text@,
                    targets[k].found,
                    cwd,
                    root,
                    tree,
                ) is Ok
        },
    decreases n,
{
    if n > 0 {
        first_bad_target_is_reported(targets, n - 1, cwd, root, tree);
        let last = target_files(targets[n - 1].text@, targets[n - 1].found, cwd, root, tree);
        match targets_outcome(targets, n - 1, cwd, root, tree) {
            Ok(_) => {
                if last is Ok {
                    assert forall|k: int| 0 <= k < n implies target_files(
                        (#[trigger] targets[k]).text@,
                        targets[k].found,
                        cwd,
                        root,
                        tree,
                    ) is Ok by {
                        if k == n - 1 {
                            assert(targets[k] == targets[n - 1]);
                        }
                    }
                } else {
                    assert(target_files(
                        targets[n - 1].text@,
                        targets[n - 1].found,
                        cwd,
                        root,
                        tree,
                    ) is Err);
                }
            },
            Err((fault, i)) => {
                assert(target_files(targets[i].text@, targets[i].found, cwd, root, tree) is Err);
            },
        }
    }
}

/// Where the targets resolve, every file listed below a directory that is a
/// target is among the resolved ones, be the directory the root or below it.
pub proof fn directory_targets_bring_all_their_files(
    targets: Seq<Target>,
    k: int,
    j: int,
    cwd: Seq<char>,
    root: Seq<char>,
    tree: Seq<Seq<char>>,
)
    requires
        0 <= k < targets.len(),
        targets_outcome(targets, targets.len() as int, cwd, root, tree) is Ok,
        targets[k].found matches Found::Directory { files, .. } && 0 <= j < files@.len(),
    ensures
        targets[k].found matches Found::Directory { files, canonical } && fspath::within(
            canonical@,
            root,
        ) && fspath::holds_path(
            targets_outcome(targets, targets.len() as int, cwd, root, tree)->Ok_0,
            files@[j]@,
        ),
{
    let n = targets.len() as int;
    first_bad_target_is_reported(targets, n, cwd, root, tree);
    existing_targets(targets[k].text@, targets[k].found, cwd, root, tree);
    match targets[k].found {
        Found::Directory { files, canonical } => {
            let all = target_files(
                targets[k].text@,
                targets[k].found,
                cwd,
                root,
                tree,
            )->Ok_0;
            assert(all[j] == files@[j]@);
            assert(all.contains(files@[j]@));
            resolved_targets_hold_every_file(targets, n, k, cwd, root, tree, files@[j]@);
        },
        _ => {},
    }
}

/// Where the targets resolve, every file that is a target is among the resolved
/// ones, by its way from the root.
pub proof fn file_targets_are_resolved(
    targets: Seq<Target>,
    k: int,
    cwd: Seq<char>,
    root: Seq<char>,
    tree: Seq<Seq<char>>,
    file: Seq<char>,
)
    requires
        0 <= k < targets.len(),
        targets_outcome(targets, targets.len() as int, cwd, root, tree) is Ok,
        targets[k].found matches Found::File { canonical } && fspath::parts(canonical@)
            == fspath::parts(root) + fspath::parts(file),
    ensures
        fspath::holds_path(
            targets_outcome(targets, targets.len() as int, cwd, root, tree)->Ok_0,
            file,
        ),
{
    let n = targets.len() as int;
    first_bad_target_is_reported(targets, n, cwd, root, tree);
    existing_targets(targets[k].text@, targets[k].found, cwd, root, tree);
    let all = target_files(targets[k].text@, targets[k].found, cwd, root, tree)->Ok_0;
    assert(all.contains(all[0]));
    resolved_targets_hold_every_file(targets, n, k, cwd, root, tree, all[0]);
    let m = fspath::parts(root).len() as int;
    let whole = fspath::parts(root) + fspath::parts(file);
    let again = fspath::parts(root) + fspath::parts(all[0]);
    assert(whole.skip(m) =~= fspath::parts(file));
    assert(again.skip(m) =~= fspath::parts(all[0]));
    let out = targets_outcome(targets, n, cwd, root, tree)->Ok_0;
    let i = choose|i: int|
        0 <= i < out.len() && fspath::parts(#[trigger] out[i]) == fspath::parts(all[0]);
    assert(fspath::parts(out[i]) == fspath::parts(file));
}

/// A file is kept just where it was there and no pattern accepts it, and the
/// order stays.
pub proof fn excluded_files_are_left_out(
    files: Seq<Seq<char>>,
    patterns: Seq<Seq<char>>,
    p: Seq<char>,
)
    ensures
        not_excluded(files, patterns).contains(p) <==> files.contains(p) && forall|i: int|
            0 <= i < patterns.len() ==> !globs::glob_accepts(#[trigger] patterns[i], p),
        (forall|k: int, i: int|
            0 <= k < files.len() && 0 <= i < patterns.len() ==> !#[trigger] globs::glob_accepts(
                patterns[i],
                files[k],
            )) ==> not_excluded(files, patterns) == files,
{
    let keep = |f: Seq<char>| !globs::any_accepts(patterns, f);
    let r = not_excluded(files, patterns);
    if r.contains(p) {
        files.lemma_filter_contains_rev(keep, p);
        let k = choose|k: int| 0 <= k < r.len() && r[k] == p;
        files.lemma_filter_pred(keep, k);
        assert(!globs::any_accepts(patterns, p));
        assert forall|i: int| 0 <= i < patterns.len() implies !globs::glob_accepts(
            #[trigger] patterns[i],
            p,
        ) by {
            if globs::glob_accepts(patterns[i], p) {
                assert(globs::any_accepts(patterns, p));
            }
        }
    }
    if files.contains(p) && forall|i: int|
        0 <= i < patterns.len() ==> !globs::glob_accepts(#[trigger] patterns[i], p) {
        assert(!globs::any_accepts(patterns, p));
        let k = choose|k: int| 0 <= k < files.len() && files[k] == p;
        files.lemma_filter_contains(keep, k);
    }
    if forall|k: int, i: int|
        0 <= k < files.len() && 0 <= i < patterns.len() ==> !#[trigger] globs::glob_accepts(
            patterns[i],
            files[k],
        ) {
        lemma_nothing_excluded(files, patterns);
    }
}

proof fn lemma_nothing_excluded(files: Seq<Seq<char>>, patterns: Seq<Seq<char>>)
    requires
        forall|k: int, i: int|
            0 <= k < files.len() && 0 <= i < patterns.len() ==> !#[trigger] globs::glob_accepts(
                patterns[i],
                files[k],
            ),
    ensures
        not_excluded(files, patterns) == files,
    decreases files.len(),
{
    reveal(Seq::filter);
    if files.len() > 0 {
        let t = files.drop_last();
        assert forall|k: int, i: int|
            0 <= k < t.len() && 0 <= i < patterns.len() implies !#[trigger] globs::glob_accepts(
            patterns[i],
            t[k],
        ) by {
            assert(t[k] == files[k]);
        }
        lemma_nothing_excluded(t, patterns);
        assert(files.last() == files[files.len() - 1]);
        assert(!globs::any_accepts(patterns, files.last()));
        assert(t.push(files.last()) =~= files);
    } else {
        assert(not_excluded(files, patterns) =~= files);
    }
}

/// A walk gives each file that it met, by its way from the root and in the order
/// of the walk, and no directory; it fails just where a file lies outside the
/// root.
pub proof fn walks_give_every_file(entries: Seq<WalkEntry>, root: Seq<char>)
    ensures
        walked_files(entries, root) is Some <==> forall|i: int|
            0 <= i < entries.len() && (#[trigger] entries[i]).is_file ==> fspath::within(
                entries[i].path@,
                root,
            ),
        walked_files(entries, root) matches Some(files) ==> files == entries.filter(
            |e: WalkEntry| e.is_file,
        ).map_values(|e: WalkEntry| fspath::relative(e.path@, root)->0),
    decreases entries.len(),
{
    reveal(Seq::filter);
    let f = |e: WalkEntry| e.is_file;
    let g = |e: WalkEntry| fspath::relative(e.path@, root)->0;
    if entries.len() > 0 {
        let t = entries.drop_last();
        walks_give_every_file(t, root);
        let last = entries.last();
        if walked_files(entries, root) is Some {
            assert forall|i: int|
                0 <= i < entries.len() && (#[trigger] entries[i]).is_file implies fspath::within(
                entries[i].path@,
                root,
            ) by {
                if i < t.len() {
                    assert(t[i] == entries[i]);
                }
            }
        }
        if forall|i: int|
            0 <= i < entries.len() && (#[trigger] entries[i]).is_file ==> fspath::within(
                entries[i].path@,
                root,
            ) {
            assert forall|i: int| 0 <= i < t.len() && (#[trigger] t[i]).is_file implies fspath::within(
                t[i].path@,
                root,
            ) by {
                assert(t[i] == entries[i]);
            }
            assert(entries[entries.len() - 1] == last);
        }
        let rest = t.filter(f);
        if last.is_file {
            assert(rest.push(last).map_values(g) =~= rest.map_values(g).push(g(last)));
        }
    } else {
        assert(entries.filter(f).map_values(g) =~= Seq::empty());
    }
}

/// A rejected target is named as it was given, but one that leaves the file
/// system by its way from the current directory.
pub proof fn rejected_targets_are_named(fault: TargetFault, text: Seq<char>, cwd: Seq<char>)
    ensures
        named_target(TargetFault::PatternEscapes, text, cwd) == fspath::joined(cwd, text),
        fault != TargetFault::PatternEscapes ==> named_target(fault, text, cwd) == text,
{
}

} // verus!
