//! The pre-commit hook: when it is safe to run, and how it is installed.
//!
//! Formatting and staging again is safe only where the staged files have no
//! further modifications. Otherwise these would silently get into the commit,
//! so the hook refuses.

use crate::chars;
use crate::fspath;
use crate::git::GitContext;
use crate::git::GitError;
use crate::text;
use vstd::prelude::*;

verus! {

/// Whether formatting and staging again is safe.
#[derive(Debug, PartialEq, Eq)]
pub enum StagingCheck {
    Safe,
    /// These files are staged in part.
    PartialStage { files: Vec<String> },
}

/// The candidates that are also modified beyond what is staged.
pub open spec fn partially_staged(candidates: Seq<Seq<char>>, unstaged: Seq<Seq<char>>) -> Seq<
    Seq<char>,
>
    decreases candidates.len(),
{
    if candidates.len() == 0 {
        Seq::empty()
    } else {
        let rest = partially_staged(candidates.drop_last(), unstaged);
        if fspath::holds_path(unstaged, candidates.last()) {
            rest.push(candidates.last())
        } else {
            rest
        }
    }
}

/// What is found where these files are modified beyond what is staged.
pub open spec fn is_staging_check(
    candidates: Seq<Seq<char>>,
    unstaged: Seq<Seq<char>>,
    r: StagingCheck,
) -> bool {
    let conflicts = partially_staged(candidates, unstaged);
    if conflicts.len() == 0 {
        r is Safe
    } else {
        r matches StagingCheck::PartialStage { files } && chars::views(files@) == fspath::sorted(
            conflicts,
        )
    }
}

/// Looks for candidates that are modified beyond what is staged.
pub fn compare_staging(candidates: &Vec<String>, unstaged: &Vec<String>) -> (r: StagingCheck)
    ensures
        is_staging_check(chars::views(candidates@), chars::views(unstaged@), r),
{
    let ghost all = chars::views(candidates@);
    let mut conflicts: Vec<String> = Vec::new();
    let mut i: usize = 0;
    assert(chars::views(conflicts@) =~= Seq::empty());
    while i < candidates.len()
        invariant
            i <= candidates.len(),
            all == chars::views(candidates@),
            chars::views(conflicts@) == partially_staged(
                all.take(i as int),
                chars::views(unstaged@),
            ),
        decreases candidates.len() - i,
    {
        let ghost before = chars::views(conflicts@);
        assert(all.take(i + 1).drop_last() =~= all.take(i as int));
        assert(all[i as int] == candidates@[i as int]@);
        if fspath::holds(unstaged, &candidates[i]) {
            conflicts.push(candidates[i].clone());
            assert(chars::views(conflicts@) =~= before.push(all[i as int]));
        }
        i += 1;
    }
    assert(all.take(i as int) =~= all);
    assert(chars::views(conflicts@).len() == conflicts@.len());
    if conflicts.len() == 0 {
        StagingCheck::Safe
    } else {
        StagingCheck::PartialStage { files: fspath::sort(conflicts) }
    }
}

/// Looks for candidates that are modified beyond what is staged. `candidates`
/// are the files that are about to be formatted; without any, git is not asked.
pub fn check_partial_staging<G: GitContext>(git: &G, candidates: &Vec<String>) -> (r: Result<
    StagingCheck,
    GitError,
>)
    ensures
        candidates@.len() == 0 ==> r == Ok::<StagingCheck, GitError>(StagingCheck::Safe),
        candidates@.len() > 0 ==> exists|answer: Result<Vec<String>, GitError>| #[trigger]
            call_ensures(G::unstaged_modified_files, (git,), answer) && match answer {
                Ok(files) => r matches Ok(check) && is_staging_check(
                    chars::views(candidates@),
                    chars::views(files@),
                    check,
                ),
                Err(e) => r matches Err(f) && f.message@ == "query unstaged-modified files: "@
                    + e.message@,
            },
{
    if candidates.len() == 0 {
        return Ok(StagingCheck::Safe);
    }
    let answer = git.unstaged_modified_files();
    match answer {
        Ok(files) => Ok(compare_staging(candidates, &files)),
        Err(e) => Err(
            GitError { message: text::cat2("query unstaged-modified files: ", &e.message) },
        ),
    }
}

/// Staging is safe exactly where no candidate is modified beyond what is staged,
/// and the files named otherwise are candidates that are.
pub proof fn safe_iff_no_partial_file(
    candidates: Seq<Seq<char>>,
    unstaged: Seq<Seq<char>>,
    r: StagingCheck,
)
    requires
        is_staging_check(candidates, unstaged, r),
    ensures
        r is Safe <==> forall|i: int|
            0 <= i < candidates.len() ==> !fspath::holds_path(unstaged, #[trigger] candidates[i]),
        r matches StagingCheck::PartialStage { files } ==> forall|q: Seq<char>| #[trigger]
            chars::views(files@).contains(q) ==> candidates.contains(q) && fspath::holds_path(
                unstaged,
                q,
            ),
{
    lemma_partially_staged(candidates, unstaged);
    let conflicts = partially_staged(candidates, unstaged);
    fspath::sorting_keeps_the_paths(conflicts);
    if !(r is Safe) {
        let q = conflicts[0];
        assert(conflicts.contains(q));
        let i = choose|i: int| 0 <= i < candidates.len() && candidates[i] == q;
        assert(fspath::holds_path(unstaged, candidates[i]));
    }
}

proof fn lemma_partially_staged(candidates: Seq<Seq<char>>, unstaged: Seq<Seq<char>>)
    ensures
        forall|q: Seq<char>| #[trigger]
            partially_staged(candidates, unstaged).contains(q) ==> candidates.contains(q)
                && fspath::holds_path(unstaged, q),
        partially_staged(candidates, unstaged).len() == 0 ==> forall|i: int|
            0 <= i < candidates.len() ==> !fspath::holds_path(unstaged, #[trigger] candidates[i]),
    decreases candidates.len(),
{
    if candidates.len() > 0 {
        let init = candidates.drop_last();
        lemma_partially_staged(init, unstaged);
        let rest = partially_staged(init, unstaged);
        let r = partially_staged(candidates, unstaged);
        assert forall|q: Seq<char>| #[trigger] r.contains(q) implies candidates.contains(q)
            && fspath::holds_path(unstaged, q) by {
            let k = choose|k: int| 0 <= k < r.len() && r[k] == q;
            if k < rest.len() {
                assert(rest[k] == q);
                assert(rest.contains(q));
                let j = choose|j: int| 0 <= j < init.len() && init[j] == q;
                assert(candidates[j] == q);
            } else {
                assert(candidates[candidates.len() - 1] == q);
            }
        }
        if r.len() == 0 {
            assert forall|i: int| 0 <= i < candidates.len() implies !fspath::holds_path(
                unstaged,
                #[trigger] candidates[i],
            ) by {
                if i < init.len() {
                    assert(init[i] == candidates[i]);
                }
            }
        }
    }
}

/// What is said where files are staged in part.
pub open spec fn partial_stage_text(files: Seq<Seq<char>>) -> Seq<char> {
    "kempt: partial staging detected on files we'd format:\n"@ + listed(files)
        + "formatting and re-staging would pull unstaged hunks into the commit.\noptions:\n  - stage the rest (git add ...)\n  - stash unstaged (git stash -k)\n  - bypass the hook (git commit --no-verify)\n"@
}

/// The files, one per line, indented.
pub open spec fn listed(files: Seq<Seq<char>>) -> Seq<char>
    decreases files.len(),
{
    if files.len() == 0 {
        Seq::empty()
    } else {
        listed(files.drop_last()) + "  "@ + files.last() + seq!['\n']
    }
}

/// What is said where files are staged in part.
pub fn format_partial_stage_error(files: &Vec<String>) -> (r: String)
    ensures
        r@ == partial_stage_text(chars::views(files@)),
{
    let ghost all = chars::views(files@);
    let mut s = "kempt: partial staging detected on files we'd format:\n".to_owned();
    let ghost head = s@;
    let mut i: usize = 0;
    assert(s@ =~= head + listed(all.take(0)));
    while i < files.len()
        invariant
            i <= files.len(),
            all == chars::views(files@),
            s@ == head + listed(all.take(i as int)),
        decreases files.len() - i,
    {
        let ghost before = s@;
        assert(all.take(i + 1).drop_last() =~= all.take(i as int));
        assert(all[i as int] == files@[i as int]@);
        s.push_str("  ");
        s.push_str(&files[i]);
        s.push('\n');
        assert(s@ =~= head + listed(all.take(i + 1)));
        i += 1;
    }
    assert(all.take(i as int) =~= all);
    s.push_str(
        "formatting and re-staging would pull unstaged hunks into the commit.\noptions:\n  - stage the rest (git add ...)\n  - stash unstaged (git stash -k)\n  - bypass the hook (git commit --no-verify)\n",
    );
    s
}

/// The hook: it hands over to `kempt hook`.
pub const HOOK_BODY: &'static str = "#!/bin/sh\nexec kempt hook \"$@\"\n";

/// Where the hook goes below the git directory.
pub open spec fn hook_path(git_dir: Seq<char>) -> Seq<char> {
    fspath::joined(fspath::joined(git_dir, "hooks"@), "pre-commit"@)
}

/// A file to be written and made executable.
#[derive(Debug, PartialEq, Eq)]
pub struct HookFile {
    pub path: String,
    pub body: &'static str,
}

/// There is a hook already.
#[derive(Debug, PartialEq, Eq)]
pub struct HookExists {
    pub path: String,
}

impl HookExists {
    /// What the error says.
    pub fn message(&self) -> (r: String)
        ensures
            r@ == "pre-commit hook already exists at "@ + self.path@
                + " (re-run with --force to overwrite)"@,
    {
        text::cat3(
            "pre-commit hook already exists at ",
            &self.path,
            " (re-run with --force to overwrite)",
        )
    }
}

/// Where the hook of a git directory goes.
pub fn pre_commit_path(git_dir: &str) -> (r: String)
    ensures
        r@ == hook_path(git_dir@),
{
    fspath::join(&fspath::join(git_dir, "hooks"), "pre-commit")
}

/// The hook to be written. One that `exists` is overwritten only with `force`.
pub fn install_pre_commit(git_dir: &str, exists: bool, force: bool) -> (r: Result<
    HookFile,
    HookExists,
>)
    ensures
        if exists && !force {
            r matches Err(e) && e.path@ == hook_path(git_dir@)
        } else {
            r matches Ok(f) && f.path@ == hook_path(git_dir@) && f.body@ == HOOK_BODY@
        },
{
    let path = pre_commit_path(git_dir);
    if exists && !force {
        return Err(HookExists { path });
    }
    Ok(HookFile { path, body: HOOK_BODY })
}

/// Staged in part are just the candidates that are also modified beyond what is
/// staged; where there are any, all of them are reported, in path order.
pub proof fn partially_staged_files_are_reported(
    candidates: Seq<Seq<char>>,
    unstaged: Seq<Seq<char>>,
    r: StagingCheck,
)
    requires
        is_staging_check(candidates, unstaged, r),
    ensures
        partially_staged(candidates, unstaged) == candidates.filter(
            |c: Seq<char>| fspath::holds_path(unstaged, c),
        ),
        r matches StagingCheck::PartialStage { files } ==> chars::views(files@).to_multiset()
            == candidates.filter(|c: Seq<char>| fspath::holds_path(unstaged, c)).to_multiset(),
        r is Safe <==> candidates.filter(|c: Seq<char>| fspath::holds_path(unstaged, c)).len() == 0,
{
    lemma_partially_staged_filter(candidates, unstaged);
    fspath::sorted_paths_are_in_order(partially_staged(candidates, unstaged));
}

proof fn lemma_partially_staged_filter(candidates: Seq<Seq<char>>, unstaged: Seq<Seq<char>>)
    ensures
        partially_staged(candidates, unstaged) == candidates.filter(
            |c: Seq<char>| fspath::holds_path(unstaged, c),
        ),
    decreases candidates.len(),
{
    reveal(Seq::filter);
    if candidates.len() > 0 {
        lemma_partially_staged_filter(candidates.drop_last(), unstaged);
    }
}

/// Files are listed one by one, each indented and on a line of its own.
pub proof fn files_are_listed_line_by_line(a: Seq<Seq<char>>, f: Seq<char>, b: Seq<Seq<char>>)
    ensures
        listed(Seq::empty()) == Seq::<char>::empty(),
        listed(seq![f]) == seq![' ', ' '] + f + seq!['\n'],
        listed(a + b) == listed(a) + listed(b),
    decreases b.len(),
{
    reveal_strlit("  ");
    assert("  "@ =~= seq![' ', ' ']);
    assert(seq![f].drop_last() =~= Seq::<Seq<char>>::empty());
    assert(listed(seq![f].drop_last()) =~= Seq::<char>::empty());
    assert(listed(seq![f]) =~= seq![' ', ' '] + f + seq!['\n']);
    if b.len() > 0 {
        files_are_listed_line_by_line(a, f, b.drop_last());
        assert((a + b).drop_last() =~= a + b.drop_last());
        assert(listed(a + b) =~= listed(a) + listed(b));
    } else {
        assert(a + b =~= a);
        assert(listed(a) + listed(b) =~= listed(a));
    }
}

/// The hook is the file `hooks/pre-commit` of the git directory.
pub proof fn hook_goes_below_the_git_directory(git_dir: Seq<char>)
    requires
        git_dir.len() > 0,
    ensures
        fspath::parts(hook_path(git_dir)) == fspath::parts(git_dir) + seq!["hooks"@, "pre-commit"@],
{
    reveal_strlit("hooks");
    reveal_strlit("pre-commit");
    let h = "hooks"@;
    let p = "pre-commit"@;
    assert(!h.contains('/'));
    assert(!p.contains('/'));
    assert(h.len() == 5 && p.len() == 10);
    fspath::written_components_are_read_back(seq![h]);
    fspath::written_components_are_read_back(seq![p]);
    assert(fspath::written(seq![h]) =~= h) by {
        assert(h != seq!['/']);
    }
    assert(fspath::written(seq![p]) =~= p) by {
        assert(p != seq!['/']);
    }
    fspath::joined_components_follow(git_dir, h);
    fspath::joined_components_follow(fspath::joined(git_dir, h), p);
    assert(fspath::parts(hook_path(git_dir)) =~= fspath::parts(git_dir) + seq![h, p]);
}

/// Every file that is staged in part is named, on a line of its own.
pub proof fn partial_files_are_all_named(files: Seq<Seq<char>>, i: int)
    requires
        0 <= i < files.len(),
    ensures
        chars::contains(partial_stage_text(files), seq![' ', ' '] + files[i] + seq!['\n']),
{
    let a = files.take(i);
    let b = files.skip(i);
    let f = files[i];
    assert(files =~= a + b);
    assert(b =~= seq![f] + b.skip(1));
    files_are_listed_line_by_line(a, f, b);
    files_are_listed_line_by_line(seq![f], f, b.skip(1));
    let line = seq![' ', ' '] + f + seq!['\n'];
    let head = "kempt: partial staging detected on files we'd format:\n"@;
    let tail =
        "formatting and re-staging would pull unstaged hunks into the commit.\noptions:\n  - stage the rest (git add ...)\n  - stash unstaged (git stash -k)\n  - bypass the hook (git commit --no-verify)\n"@;
    let all = partial_stage_text(files);
    let before = head + listed(a);
    let after = listed(b.skip(1)) + tail;
    assert(all =~= before + line + after);
    let n = before.len() as int;
    assert(all.subrange(n, n + line.len()) =~= line);
    assert(chars::occurs_at(all, line, n));
}

} // verus!
