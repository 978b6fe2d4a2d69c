//! What git is asked, and what its answers mean.
//!
//! [`GitContext`] is the set of operations that formatting needs from git, so
//! that the rest can be run against any repository, real or not. [`RealGit`]
//! spells those operations as command lines and reads what the commands print.

use crate::chars;
use crate::fspath;
use crate::text;
use vstd::prelude::*;

verus! {

/// A failed git operation, in words.
#[derive(Debug, PartialEq, Eq)]
pub struct GitError {
    pub message: String,
}

/// Operations needed from git. Paths are always relative to the repository
/// root.
pub trait GitContext {
    fn root(&self) -> &str;

    fn ls_files(&self) -> Result<Vec<String>, GitError>;

    fn staged_files(&self) -> Result<Vec<String>, GitError>;

    fn touched_files(&self, base: Option<&str>) -> Result<Vec<String>, GitError>;

    fn unstaged_modified_files(&self) -> Result<Vec<String>, GitError>;

    /// Stages paths, tracked files hidden by ignore rules among them.
    fn add(&self, paths: &Vec<String>) -> Result<(), GitError>;

    /// What is staged of a file, as a diff. A context that does not offer this
    /// fails.
    fn staged_diff(&self, _path: &str, _context: u32) -> (r: Result<String, GitError>)
        default_ensures
            r matches Err(e) && e.message@
                == "staged diff is not supported by this git context"@,
    {
        Err(GitError { message: "staged diff is not supported by this git context".to_owned() })
    }

    /// What the index holds of a file. A context that does not offer this fails.
    fn read_staged_file(&self, _path: &str) -> (r: Result<Vec<u8>, GitError>)
        default_ensures
            r matches Err(e) && e.message@
                == "reading staged files is not supported by this git context"@,
    {
        Err(
            GitError {
                message: "reading staged files is not supported by this git context".to_owned(),
            },
        )
    }

    /// Makes the index hold these contents of a file. A context that does not
    /// offer this fails.
    fn update_staged_file(&self, _path: &str, _contents: &Vec<u8>) -> (r: Result<(), GitError>)
        default_ensures
            r matches Err(e) && e.message@
                == "updating staged files is not supported by this git context"@,
    {
        Err(
            GitError {
                message: "updating staged files is not supported by this git context".to_owned(),
            },
        )
    }
}

/// What a finished git command left behind.
#[derive(Debug, PartialEq, Eq)]
pub struct GitOutput {
    pub success: bool,
    /// The output; none where it is no UTF-8.
    pub stdout: Option<String>,
    pub stderr: String,
}

fn error(message: String) -> (r: GitError)
    ensures
        r.message == message,
{
    GitError { message }
}

/// A command that could not be started.
pub fn spawn_failure(what: &str, cause: &str) -> (r: GitError)
    ensures
        r.message@ == what@ + " failed to spawn: "@ + cause@,
{
    error(text::cat3(what, " failed to spawn: ", cause))
}

/// Options that make a diff plain, whatever the user's settings are.
pub open spec fn plain_diff() -> Seq<Seq<char>> {
    seq!["diff"@, "--no-ext-diff"@, "--no-textconv"@, "--no-color"@]
}

fn plain_diff_args() -> (r: Vec<String>)
    ensures
        chars::views(r@) == plain_diff(),
{
    let r = text::list(vec!["diff", "--no-ext-diff", "--no-textconv", "--no-color"]);
    assert(chars::views(r@) =~= plain_diff());
    r
}

/// Lists the tracked files.
pub fn ls_files_args() -> (r: Vec<String>)
    ensures
        chars::views(r@) == seq!["ls-files"@],
{
    let r = text::list(vec!["ls-files"]);
    assert(chars::views(r@) =~= seq!["ls-files"@]);
    r
}

/// Lists the untracked files that are not ignored.
pub fn untracked_args() -> (r: Vec<String>)
    ensures
        chars::views(r@) == seq!["ls-files"@, "--others"@, "--exclude-standard"@],
{
    let r = text::list(vec!["ls-files", "--others", "--exclude-standard"]);
    assert(chars::views(r@) =~= seq!["ls-files"@, "--others"@, "--exclude-standard"@]);
    r
}

/// Lists the files of the index that differ from the last commit.
pub fn staged_args() -> (r: Vec<String>)
    ensures
        chars::views(r@) == plain_diff() + seq!["--cached"@, "--name-only"@, "--diff-filter=ACMR"@],
{
    let mut r = plain_diff_args();
    let more = text::list(vec!["--cached", "--name-only", "--diff-filter=ACMR"]);
    text::append(&mut r, &more);
    assert(chars::views(more@) =~= seq!["--cached"@, "--name-only"@, "--diff-filter=ACMR"@]);
    r
}

/// Lists the files that differ from the index.
pub fn unstaged_args() -> (r: Vec<String>)
    ensures
        chars::views(r@) == plain_diff() + seq!["--name-only"@, "--diff-filter=ACMR"@],
{
    let mut r = plain_diff_args();
    let more = text::list(vec!["--name-only", "--diff-filter=ACMR"]);
    text::append(&mut r, &more);
    assert(chars::views(more@) =~= seq!["--name-only"@, "--diff-filter=ACMR"@]);
    r
}

/// Lists the files that differ from where the work left a base.
pub fn touched_args(base: &str) -> (r: Vec<String>)
    ensures
        chars::views(r@) == plain_diff() + seq![
            "--name-only"@,
            "--diff-filter=ACMR"@,
            "--merge-base"@,
            base@,
            "--"@,
        ],
{
    let mut r = plain_diff_args();
    let more = text::list(
        vec!["--name-only", "--diff-filter=ACMR", "--merge-base", base, "--"],
    );
    text::append(&mut r, &more);
    assert(chars::views(more@) =~= seq![
        "--name-only"@,
        "--diff-filter=ACMR"@,
        "--merge-base"@,
        base@,
        "--"@,
    ]);
    r
}

/// Stages paths, ignored ones among them; nothing where there are none.
pub fn add_args(paths: &Vec<String>) -> (r: Option<Vec<String>>)
    ensures
        match r {
            None => paths@.len() == 0,
            Some(v) => paths@.len() > 0 && chars::views(v@) == seq!["add"@, "--force"@, "--"@]
                + chars::views(paths@),
        },
{
    if paths.len() == 0 {
        return None;
    }
    let mut r = text::list(vec!["add", "--force", "--"]);
    assert(chars::views(r@) =~= seq!["add"@, "--force"@, "--"@]);
    text::append(&mut r, paths);
    Some(r)
}

/// Shows what is staged of a file, with so many lines of context.
pub fn staged_diff_args(path: &str, context: u32) -> (r: Vec<String>)
    ensures
        chars::views(r@) == plain_diff() + seq![
            "--cached"@,
            "-U"@ + chars::decimal(context as nat),
            "--"@,
            path@,
        ],
{
    let unified = text::cat2("-U", &text::decimal(context as u64));
    let mut r = plain_diff_args();
    let more = text::list(vec!["--cached", unified.as_str(), "--", path]);
    text::append(&mut r, &more);
    assert(chars::views(more@) =~= seq![
        "--cached"@,
        "-U"@ + chars::decimal(context as nat),
        "--"@,
        path@,
    ]);
    r
}

/// Shows the index entry of a file.
pub fn index_entry_args(path: &str) -> (r: Vec<String>)
    ensures
        chars::views(r@) == seq!["ls-files"@, "-s"@, "--"@, path@],
{
    let r = text::list(vec!["ls-files", "-s", "--", path]);
    assert(chars::views(r@) =~= seq!["ls-files"@, "-s"@, "--"@, path@]);
    r
}

/// Shows a blob.
pub fn cat_file_args(sha: &str) -> (r: Vec<String>)
    ensures
        chars::views(r@) == seq!["cat-file"@, "-p"@, sha@],
{
    let r = text::list(vec!["cat-file", "-p", sha]);
    assert(chars::views(r@) =~= seq!["cat-file"@, "-p"@, sha@]);
    r
}

/// Stores a file as the blob of a path.
pub fn hash_object_args(path: &str, contents: &str) -> (r: Vec<String>)
    ensures
        chars::views(r@) == seq!["hash-object"@, "-w"@, "--path="@ + path@, contents@],
{
    let path_arg = text::cat2("--path=", path);
    let r = text::list(vec!["hash-object", "-w", path_arg.as_str(), contents]);
    assert(chars::views(r@) =~= seq!["hash-object"@, "-w"@, "--path="@ + path@, contents@]);
    r
}

/// Puts a blob into the index.
pub fn update_index_args(mode: &str, sha: &str, path: &str) -> (r: Vec<String>)
    ensures
        chars::views(r@) == seq!["update-index"@, "--cacheinfo"@, mode@, sha@, path@],
{
    let r = text::list(vec!["update-index", "--cacheinfo", mode, sha, path]);
    assert(chars::views(r@) =~= seq!["update-index"@, "--cacheinfo"@, mode@, sha@, path@]);
    r
}

/// The paths that a command printed, one per line.
pub open spec fn printed_paths(stdout: Seq<char>) -> Seq<Seq<char>> {
    chars::nonempty(chars::lines(stdout))
}

/// The paths that a listing command printed.
pub fn paths_of(args: &Vec<String>, output: &GitOutput) -> (r: Result<Vec<String>, GitError>)
    ensures
        if !output.success {
            r matches Err(e) && e.message@ == "git "@ + chars::join(chars::views(args@), " "@)
                + " failed: "@ + chars::trim(output.stderr@)
        } else {
            match output.stdout {
                None => r matches Err(e) && e.message@ == "git output not utf8"@,
                Some(s) => r matches Ok(v) && chars::views(v@) == printed_paths(s@),
            }
        },
{
    if !output.success {
        return Err(
            error(
                text::cat4(
                    "git ",
                    &text::join(args, " "),
                    " failed: ",
                    &text::trim(&output.stderr),
                ),
            ),
        );
    }
    match &output.stdout {
        None => Err(error("git output not utf8".to_owned())),
        Some(s) => Ok(text::nonempty(&text::lines(s))),
    }
}

/// A repository, as git commands see it.
#[derive(Debug)]
pub struct RealGit {
    pub root: String,
}

impl RealGit {
    /// Asks for the repository root.
    pub fn discover_args() -> (r: Vec<String>)
        ensures
            chars::views(r@) == seq!["rev-parse"@, "--show-toplevel"@],
    {
        let r = text::list(vec!["rev-parse", "--show-toplevel"]);
        assert(chars::views(r@) =~= seq!["rev-parse"@, "--show-toplevel"@]);
        r
    }

    /// The repository that git found.
    pub fn discover(output: &GitOutput) -> (r: Result<Self, GitError>)
        ensures
            if !output.success {
                r matches Err(e) && e.message@ == "not in a git repo: "@ + chars::trim(
                    output.stderr@,
                )
            } else {
                match output.stdout {
                    None => r matches Err(e) && e.message@ == "git rev-parse output not utf8"@,
                    Some(s) => r matches Ok(g) && g.root@ == chars::trim(s@),
                }
            },
    {
        if !output.success {
            return Err(
                error(text::cat2("not in a git repo: ", &text::trim(&output.stderr))),
            );
        }
        match &output.stdout {
            None => Err(error("git rev-parse output not utf8".to_owned())),
            Some(s) => Ok(RealGit { root: text::trim(s) }),
        }
    }

    /// The repository root.
    pub fn root(&self) -> (r: &str)
        ensures
            r@ == self.root@,
    {
        self.root.as_str()
    }

    /// The files that differ from where the work left the base.
    pub fn touched_diff(&self, base: &str, output: &GitOutput) -> (r: Result<
        Vec<String>,
        GitError,
    >)
        ensures
            if !output.success {
                r matches Err(e) && e.message@ == "could not determine files touched since "@
                    + base@ + ": "@ + chars::trim(output.stderr@)
                    + ". Ensure the base ref and its history are available, or pass --base <ref>"@
            } else {
                match output.stdout {
                    None => r matches Err(e) && e.message@ == "git diff output not utf8"@,
                    Some(s) => r matches Ok(v) && chars::views(v@) == printed_paths(s@),
                }
            },
    {
        if !output.success {
            let mut message = text::cat4(
                "could not determine files touched since ",
                base,
                ": ",
                &text::trim(&output.stderr),
            );
            message.push_str(
                ". Ensure the base ref and its history are available, or pass --base <ref>",
            );
            return Err(error(message));
        }
        match &output.stdout {
            None => Err(error("git diff output not utf8".to_owned())),
            Some(s) => Ok(text::nonempty(&text::lines(s))),
        }
    }

    /// The files that differ and the untracked ones, in path order and each once.
    pub fn touched_files(&self, differing: &Vec<String>, untracked: &Vec<String>) -> (r: Vec<
        String,
    >)
        ensures
            chars::views(r@) == fspath::inserted_all(
                fspath::inserted_all(Seq::empty(), chars::views(differing@)),
                chars::views(untracked@),
            ),
    {
        let mut files = fspath::PathSet::new();
        files.extend(differing);
        files.extend(untracked);
        files.into_vec()
    }

    /// What `git add` ended with.
    pub fn added(&self, output: &GitOutput) -> (r: Result<(), GitError>)
        ensures
            output.success ==> r is Ok,
            !output.success ==> (r matches Err(e) && e.message@ == "git add failed: "@
                + chars::trim(output.stderr@)),
    {
        if output.success {
            Ok(())
        } else {
            Err(error(text::cat2("git add failed: ", &text::trim(&output.stderr))))
        }
    }

    /// The diff that git printed for a file.
    pub fn staged_diff(&self, path: &str, output: GitOutput) -> (r: Result<String, GitError>)
        ensures
            if !output.success {
                r matches Err(e) && e.message@ == "git diff --cached failed for "@ + path@ + ": "@
                    + chars::trim(output.stderr@)
            } else {
                match output.stdout {
                    None => r matches Err(e) && e.message@ == "git diff output not utf8"@,
                    Some(s) => r == Ok::<String, GitError>(s),
                }
            },
    {
        if !output.success {
            return Err(
                error(
                    text::cat4(
                        "git diff --cached failed for ",
                        path,
                        ": ",
                        &text::trim(&output.stderr),
                    ),
                ),
            );
        }
        match output.stdout {
            None => Err(error("git diff output not utf8".to_owned())),
            Some(s) => Ok(s),
        }
    }

    /// A blob that could not be shown.
    pub fn cat_file_failure(&self, path: &str, stderr: &str) -> (r: GitError)
        ensures
            r.message@ == "git cat-file failed for "@ + path@ + ": "@ + chars::trim(stderr@),
    {
        error(text::cat4("git cat-file failed for ", path, ": ", &text::trim(stderr)))
    }

    /// Mode and blob of a file in the index.
    pub fn index_entry(&self, path: &str, output: &GitOutput) -> (r: Result<
        (String, String),
        GitError,
    >)
        ensures
            match r {
                Ok((mode, sha)) => parsed_entry(*output, path@) == Ok::<_, Seq<char>>(
                    (mode@, sha@),
                ),
                Err(e) => parsed_entry(*output, path@) == Err::<(Seq<char>, Seq<char>), _>(
                    e.message@,
                ),
            },
    {
        if !output.success {
            return Err(
                error(
                    text::cat4(
                        "git ls-files -s failed for ",
                        path,
                        ": ",
                        &text::trim(&output.stderr),
                    ),
                ),
            );
        }
        let stdout = match &output.stdout {
            None => {
                return Err(error("git ls-files output not utf8".to_owned()));
            },
            Some(s) => s,
        };
        let lines = text::lines(stdout);
        assert(chars::lines(stdout@).len() == lines@.len());
        if lines.len() == 0 {
            return Err(error(text::cat2(path, " is not in the git index")));
        }
        assert(chars::lines(stdout@)[0] == lines@[0]@);
        let words = text::words(&lines[0]);
        let ghost all = chars::words(lines@[0]@);
        assert(all.len() == words@.len());
        if words.len() == 0 {
            return Err(error(text::cat2("missing index mode for ", path)));
        }
        if words.len() == 1 {
            return Err(error(text::cat2("missing index blob for ", path)));
        }
        assert(all[0] == words@[0]@ && all[1] == words@[1]@);
        Ok((words[0].clone(), words[1].clone()))
    }
}

/// Mode and blob that the index entry of a file shows, or what is wrong.
pub open spec fn parsed_entry(output: GitOutput, path: Seq<char>) -> Result<
    (Seq<char>, Seq<char>),
    Seq<char>,
> {
    if !output.success {
        Err("git ls-files -s failed for "@ + path + ": "@ + chars::trim(output.stderr@))
    } else {
        match output.stdout {
            None => Err("git ls-files output not utf8"@),
            Some(s) => if chars::lines(s@).len() == 0 {
                Err(path + " is not in the git index"@)
            } else {
                let words = chars::words(chars::lines(s@)[0]);
                if words.len() == 0 {
                    Err("missing index mode for "@ + path)
                } else if words.len() == 1 {
                    Err("missing index blob for "@ + path)
                } else {
                    Ok((words[0], words[1]))
                }
            },
        }
    }
}

/// How far the replacement of a file in the index has come.
#[derive(Debug, PartialEq, Eq)]
pub enum StagedUpdate {
    /// The index entry has to be looked up.
    LookUp,
    /// The new contents have to be stored; the file keeps its mode.
    Store { mode: String },
    /// The new blob has to be put into the index.
    Enter { mode: String, sha: String },
    /// Nothing is left to do.
    Done,
}

impl StagedUpdate {
    /// The command that is next for a file, whose new contents are in the file
    /// `contents`.
    pub open spec fn command(self, path: Seq<char>, contents: Seq<char>) -> Option<Seq<Seq<char>>> {
        match self {
            StagedUpdate::LookUp => Some(seq!["ls-files"@, "-s"@, "--"@, path]),
            StagedUpdate::Store { .. } => Some(
                seq!["hash-object"@, "-w"@, "--path="@ + path, contents],
            ),
            StagedUpdate::Enter { mode, sha } => Some(
                seq!["update-index"@, "--cacheinfo"@, mode@, sha@, path],
            ),
            StagedUpdate::Done => None,
        }
    }

    /// The command that is next.
    pub fn next_command(&self, path: &str, contents: &str) -> (r: Option<Vec<String>>)
        ensures
            match r {
                Some(v) => self.command(path@, contents@) == Some(chars::views(v@)),
                None => self.command(path@, contents@) is None,
            },
    {
        match self {
            StagedUpdate::LookUp => Some(index_entry_args(path)),
            StagedUpdate::Store { .. } => Some(hash_object_args(path, contents)),
            StagedUpdate::Enter { mode, sha } => Some(update_index_args(mode, sha, path)),
            StagedUpdate::Done => None,
        }
    }

    /// Where the update goes after its command has ended like this.
    pub open spec fn goes_to(self, path: Seq<char>, output: GitOutput, r: Result<
        StagedUpdate,
        GitError,
    >) -> bool {
        match self {
            StagedUpdate::LookUp => match parsed_entry(output, path) {
                Ok((m, _)) => r matches Ok(StagedUpdate::Store { mode }) && mode@ == m,
                Err(text) => r matches Err(e) && e.message@ == text,
            },
            StagedUpdate::Store { mode: m } => if !output.success {
                r matches Err(e) && e.message@ == "git hash-object failed for "@ + path + ": "@
                    + chars::trim(output.stderr@)
            } else {
                match output.stdout {
                    None => r matches Err(e) && e.message@ == "git hash-object output not utf8"@,
                    Some(s) => r matches Ok(StagedUpdate::Enter { mode, sha }) && mode == m && sha@
                        == chars::trim(s@),
                }
            },
            StagedUpdate::Enter { .. } => if output.success {
                r == Ok::<StagedUpdate, GitError>(StagedUpdate::Done)
            } else {
                r matches Err(e) && e.message@ == "git update-index failed for "@ + path
            },
            StagedUpdate::Done => r == Ok::<StagedUpdate, GitError>(StagedUpdate::Done),
        }
    }

    /// Goes on after a command has ended.
    pub fn advance(self, git: &RealGit, path: &str, output: GitOutput) -> (r: Result<
        StagedUpdate,
        GitError,
    >)
        ensures
            self.goes_to(path@, output, r),
    {
        match self {
            StagedUpdate::LookUp => match git.index_entry(path, &output) {
                Ok((mode, _)) => Ok(StagedUpdate::Store { mode }),
                Err(e) => Err(e),
            },
            StagedUpdate::Store { mode } => {
                if !output.success {
                    return Err(
                        error(
                            text::cat4(
                                "git hash-object failed for ",
                                path,
                                ": ",
                                &text::trim(&output.stderr),
                            ),
                        ),
                    );
                }
                match &output.stdout {
                    None => Err(error("git hash-object output not utf8".to_owned())),
                    Some(s) => Ok(StagedUpdate::Enter { mode, sha: text::trim(s) }),
                }
            },
            StagedUpdate::Enter { .. } => {
                if output.success {
                    Ok(StagedUpdate::Done)
                } else {
                    Err(error(text::cat2("git update-index failed for ", path)))
                }
            },
            StagedUpdate::Done => Ok(StagedUpdate::Done),
        }
    }
}

/// Three commands that go well replace the file in the index by the stored
/// contents under its old mode.
pub proof fn update_keeps_the_mode(
    path: Seq<char>,
    looked_up: GitOutput,
    stored: GitOutput,
    a: StagedUpdate,
    b: StagedUpdate,
)
    requires
        StagedUpdate::LookUp.goes_to(path, looked_up, Ok(a)),
        a.goes_to(path, stored, Ok(b)),
    ensures
        parsed_entry(looked_up, path) is Ok,
        b matches StagedUpdate::Enter { mode, sha } && mode@ == (parsed_entry(
            looked_up,
            path,
        )->Ok_0).0 && stored.stdout is Some && sha@ == chars::trim(stored.stdout->0@),
{
}

/// How far the search for the base of the work has come.
#[derive(Debug, PartialEq, Eq)]
pub enum BaseSearch {
    /// The default branch of `origin`.
    OriginHead,
    /// The remotes that have a default branch.
    RemoteHeads,
    /// The default branch of one of them.
    RemoteHead { heads: Vec<String>, next: usize },
    /// A branch of a usual name.
    Candidate { next: usize },
}

/// Where the search for the base goes.
#[derive(Debug, PartialEq, Eq)]
pub enum BaseStep {
    Continue(BaseSearch),
    Found(String),
    Failed(GitError),
}

/// Branches of usual names, in the order in which they are tried.
pub open spec fn base_candidates() -> Seq<Seq<char>> {
    seq!["origin/main"@, "origin/master"@, "origin/trunk"@, "main"@, "master"@, "trunk"@]
}

fn base_candidate(i: usize) -> (r: &'static str)
    requires
        i < 6,
    ensures
        r@ == base_candidates()[i as int],
{
    if i == 0 {
        "origin/main"
    } else if i == 1 {
        "origin/master"
    } else if i == 2 {
        "origin/trunk"
    } else if i == 3 {
        "main"
    } else if i == 4 {
        "master"
    } else {
        "trunk"
    }
}

/// Asks what a symbolic reference points to.
pub open spec fn symbolic_ref(reference: Seq<char>) -> Seq<Seq<char>> {
    seq!["symbolic-ref"@, "--quiet"@, "--short"@, reference]
}

fn symbolic_ref_args(reference: &str) -> (r: Vec<String>)
    ensures
        chars::views(r@) == symbolic_ref(reference@),
{
    let r = text::list(vec!["symbolic-ref", "--quiet", "--short", reference]);
    assert(chars::views(r@) =~= symbolic_ref(reference@));
    r
}

impl BaseSearch {
    /// The search is at a place where it can be.
    pub open spec fn valid(self) -> bool {
        match self {
            BaseSearch::RemoteHead { heads, next } => next < heads@.len(),
            BaseSearch::Candidate { next } => next < base_candidates().len(),
            _ => true,
        }
    }

    /// The command that is next.
    pub open spec fn command(self) -> Seq<Seq<char>> {
        match self {
            BaseSearch::OriginHead => symbolic_ref("refs/remotes/origin/HEAD"@),
            BaseSearch::RemoteHeads => seq![
                "for-each-ref"@,
                "--format=%(refname)"@,
                "refs/remotes/*/HEAD"@,
            ],
            BaseSearch::RemoteHead { heads, next } => symbolic_ref(heads@[next as int]@),
            BaseSearch::Candidate { next } => seq![
                "rev-parse"@,
                "--verify"@,
                "--quiet"@,
                base_candidates()[next as int],
            ],
        }
    }

    /// The command that is next.
    pub fn next_command(&self) -> (r: Vec<String>)
        requires
            self.valid(),
        ensures
            chars::views(r@) == self.command(),
    {
        match self {
            BaseSearch::OriginHead => symbolic_ref_args("refs/remotes/origin/HEAD"),
            BaseSearch::RemoteHeads => {
                let r = text::list(
                    vec!["for-each-ref", "--format=%(refname)", "refs/remotes/*/HEAD"],
                );
                assert(chars::views(r@) =~= self.command());
                r
            },
            BaseSearch::RemoteHead { heads, next } => symbolic_ref_args(&heads[*next]),
            BaseSearch::Candidate { next } => {
                let r = text::list(
                    vec!["rev-parse", "--verify", "--quiet", base_candidate(*next)],
                );
                assert(chars::views(r@) =~= self.command());
                r
            },
        }
    }

    /// Where the search goes after its command has ended like this: to a
    /// reference that was found, and else to the next place.
    pub open spec fn goes_to(self, output: GitOutput, r: BaseStep) -> bool {
        match self {
            BaseSearch::OriginHead => if output.success {
                found_reference(output, r)
            } else {
                r matches BaseStep::Continue(BaseSearch::RemoteHeads)
            },
            BaseSearch::RemoteHeads => if output.success {
                match output.stdout {
                    None => r matches BaseStep::Failed(e) && e.message@
                        == "git for-each-ref output not utf8"@,
                    Some(s) => if chars::lines(s@).len() > 0 {
                        r matches BaseStep::Continue(BaseSearch::RemoteHead { heads, next }) && next
                            == 0 && chars::views(heads@) == chars::lines(s@)
                    } else {
                        r matches BaseStep::Continue(BaseSearch::Candidate { next }) && next == 0
                    },
                }
            } else {
                r matches BaseStep::Continue(BaseSearch::Candidate { next }) && next == 0
            },
            BaseSearch::RemoteHead { heads: hs, next: n } => if output.success {
                found_reference(output, r)
            } else if n + 1 < hs@.len() {
                r matches BaseStep::Continue(BaseSearch::RemoteHead { heads, next }) && heads == hs
                    && next == n + 1
            } else {
                r matches BaseStep::Continue(BaseSearch::Candidate { next }) && next == 0
            },
            BaseSearch::Candidate { next: n } => if output.success {
                r matches BaseStep::Found(b) && b@ == base_candidates()[n as int]
            } else if n + 1 < base_candidates().len() {
                r matches BaseStep::Continue(BaseSearch::Candidate { next }) && next == n + 1
            } else {
                r matches BaseStep::Failed(e) && e.message@
                    == "could not determine the base branch for --touched; pass --base <ref>"@
            },
        }
    }

    /// Goes on after a command has ended.
    pub fn advance(self, output: GitOutput) -> (r: BaseStep)
        requires
            self.valid(),
        ensures
            self.goes_to(output, r),
            r matches BaseStep::Continue(s) ==> s.valid(),
    {
        match self {
            BaseSearch::OriginHead => {
                if output.success {
                    take_reference(output)
                } else {
                    BaseStep::Continue(BaseSearch::RemoteHeads)
                }
            },
            BaseSearch::RemoteHeads => {
                if output.success {
                    match &output.stdout {
                        None => {
                            return BaseStep::Failed(
                                error("git for-each-ref output not utf8".to_owned()),
                            );
                        },
                        Some(s) => {
                            let heads = text::lines(s);
                            assert(chars::lines(s@).len() == heads@.len());
                            if heads.len() > 0 {
                                return BaseStep::Continue(
                                    BaseSearch::RemoteHead { heads, next: 0 },
                                );
                            }
                        },
                    }
                }
                BaseStep::Continue(BaseSearch::Candidate { next: 0 })
            },
            BaseSearch::RemoteHead { heads, next } => {
                if output.success {
                    return take_reference(output);
                }
                if next < heads.len() - 1 {
                    BaseStep::Continue(BaseSearch::RemoteHead { heads, next: next + 1 })
                } else {
                    BaseStep::Continue(BaseSearch::Candidate { next: 0 })
                }
            },
            BaseSearch::Candidate { next } => {
                if output.success {
                    return BaseStep::Found(base_candidate(next).to_owned());
                }
                if next + 1 < 6 {
                    BaseStep::Continue(BaseSearch::Candidate { next: next + 1 })
                } else {
                    BaseStep::Failed(
                        error(
                            "could not determine the base branch for --touched; pass --base <ref>".to_owned(),
                        ),
                    )
                }
            },
        }
    }

    /// How many more places the search can go to, once the remotes are known.
    pub open spec fn places_left(self) -> (int, int) {
        match self {
            BaseSearch::OriginHead => (3, 0),
            BaseSearch::RemoteHeads => (2, 0),
            BaseSearch::RemoteHead { heads, next } => (1, heads@.len() - next),
            BaseSearch::Candidate { next } => (0, base_candidates().len() - next),
        }
    }
}

/// The reference that was found, with nothing around it.
pub open spec fn found_reference(output: GitOutput, r: BaseStep) -> bool {
    match output.stdout {
        None => r matches BaseStep::Failed(e) && e.message@
            == "git symbolic-ref output not utf8"@,
        Some(s) => r matches BaseStep::Found(b) && b@ == chars::trim(s@),
    }
}

fn take_reference(output: GitOutput) -> (r: BaseStep)
    ensures
        found_reference(output, r),
{
    match &output.stdout {
        None => BaseStep::Failed(error("git symbolic-ref output not utf8".to_owned())),
        Some(s) => BaseStep::Found(text::trim(s)),
    }
}

/// The search comes to an end: each step leaves fewer places.
pub proof fn base_search_ends(s: BaseSearch, output: GitOutput, t: BaseSearch)
    requires
        s.valid(),
        s.goes_to(output, BaseStep::Continue(t)),
    ensures
        t.places_left().0 < s.places_left().0 || (t.places_left().0 == s.places_left().0 && 0
            <= t.places_left().1 < s.places_left().1),
        t.valid() ==> t.places_left().0 >= 0,
{
}

/// Of what a command printed every line that is not empty is a path, in order.
pub proof fn printed_lines_are_paths(stdout: Seq<char>)
    ensures
        printed_paths(stdout) == chars::lines(stdout).filter(|l: Seq<char>| l.len() > 0),
{
    chars::empty_texts_are_left_out(chars::lines(stdout));
}

/// Diffs are asked for without external programs, conversions and colours.
pub proof fn diffs_are_plain()
    ensures
        plain_diff().len() == 4,
        plain_diff()[0] == "diff"@,
        plain_diff().contains("--no-ext-diff"@),
        plain_diff().contains("--no-textconv"@),
        plain_diff().contains("--no-color"@),
{
    assert(plain_diff()[1] == "--no-ext-diff"@);
    assert(plain_diff()[2] == "--no-textconv"@);
    assert(plain_diff()[3] == "--no-color"@);
}

/// Of an index entry the first word is the mode and the second the blob; a
/// command that failed, printed no text or no line gives no entry.
pub proof fn index_entries_begin_with_mode_and_blob(
    output: GitOutput,
    path: Seq<char>,
    mode: Seq<char>,
    blob: Seq<char>,
    rest: Seq<char>,
)
    requires
        mode.len() > 0,
        blob.len() > 0,
        forall|i: int| 0 <= i < mode.len() ==> !chars::is_whitespace(#[trigger] mode[i]),
        forall|i: int| 0 <= i < blob.len() ==> !chars::is_whitespace(#[trigger] blob[i]),
    ensures
        !output.success ==> parsed_entry(output, path) is Err,
        output.stdout is None ==> parsed_entry(output, path) is Err,
        (output.stdout matches Some(s) && chars::lines(s@).len() == 0) ==> parsed_entry(
            output,
            path,
        ) is Err,
        output.success && (output.stdout matches Some(s) && chars::lines(s@).len() > 0
            && chars::lines(s@)[0] == mode.push(' ') + (blob.push(' ') + rest)) ==> parsed_entry(
            output,
            path,
        ) == Ok::<(Seq<char>, Seq<char>), Seq<char>>((mode, blob)),
{
    chars::lemma_first_word(mode, ' ', blob.push(' ') + rest);
    chars::lemma_first_word(blob, ' ', rest);
    let ws = chars::words(mode.push(' ') + (blob.push(' ') + rest));
    assert(ws[0] == mode);
    assert(ws[1] == blob);
}

/// The index is updated in three steps: the entry is looked up, the new contents
/// are stored, and the blob that this gave is entered with the mode of the entry.
pub proof fn updates_run_three_commands(
    path: Seq<char>,
    contents: Seq<char>,
    mode: String,
    sha: String,
)
    ensures
        StagedUpdate::LookUp.command(path, contents) == Some(
            seq!["ls-files"@, "-s"@, "--"@, path],
        ),
        (StagedUpdate::Store { mode }).command(path, contents) == Some(
            seq!["hash-object"@, "-w"@, "--path="@ + path, contents],
        ),
        (StagedUpdate::Enter { mode, sha }).command(path, contents) == Some(
            seq!["update-index"@, "--cacheinfo"@, mode@, sha@, path],
        ),
        StagedUpdate::Done.command(path, contents) is None,
{
}

/// A step of an update whose command failed is an error, and ends the update.
pub proof fn failed_updates_stop(
    s: StagedUpdate,
    path: Seq<char>,
    output: GitOutput,
    r: Result<StagedUpdate, GitError>,
)
    requires
        s.goes_to(path, output, r),
        !(s is Done),
    ensures
        !output.success ==> r is Err,
        r matches Ok(StagedUpdate::Store { .. }) ==> s is LookUp,
        r matches Ok(StagedUpdate::Enter { .. }) ==> s is Store,
        r matches Ok(StagedUpdate::Done) ==> s is Enter,
        r matches Ok(t) ==> !(t is LookUp),
{
}

/// Where no remote names its default branch, `main`, `master` and `trunk` are
/// tried in this order, at `origin` first and then locally, and the first that
/// exists is the base; where none does, the search fails.
pub proof fn usual_branches_are_tried_in_order(next: usize, output: GitOutput, r: BaseStep)
    requires
        (BaseSearch::Candidate { next }).valid(),
        (BaseSearch::Candidate { next }).goes_to(output, r),
    ensures
        next < 6,
        ({
            let name = if next == 0 {
                "origin/main"@
            } else if next == 1 {
                "origin/master"@
            } else if next == 2 {
                "origin/trunk"@
            } else if next == 3 {
                "main"@
            } else if next == 4 {
                "master"@
            } else {
                "trunk"@
            };
            &&& (BaseSearch::Candidate { next }).command() == seq![
                "rev-parse"@,
                "--verify"@,
                "--quiet"@,
                name,
            ]
            &&& output.success ==> (r matches BaseStep::Found(b) && b@ == name)
            &&& !output.success && next < 5 ==> (r matches BaseStep::Continue(
                BaseSearch::Candidate { next: n },
            ) && n == next + 1)
            &&& !output.success && next == 5 ==> r is Failed
        }),
{
}

/// The default branch of `origin` is the base where it is known. Else the
/// remotes are asked for theirs one after another, and the first answer is the
/// base, and where none answers the usual branches are tried from the first on.
pub proof fn remotes_are_asked_first(s: BaseSearch, output: GitOutput, r: BaseStep)
    requires
        s.valid(),
        s.goes_to(output, r),
        !(s is Candidate),
    ensures
        s is OriginHead ==> s.command() == seq![
            "symbolic-ref"@,
            "--quiet"@,
            "--short"@,
            "refs/remotes/origin/HEAD"@,
        ],
        s matches BaseSearch::RemoteHead { heads, next } ==> s.command() == seq![
            "symbolic-ref"@,
            "--quiet"@,
            "--short"@,
            heads@[next as int]@,
        ],
        !(s is RemoteHeads) && output.success && output.stdout is Some ==> (
        r matches BaseStep::Found(b) && b@ == chars::trim(output.stdout->0@)),
        output.success && output.stdout is None ==> r is Failed,
        s is OriginHead && !output.success ==> r matches BaseStep::Continue(
            BaseSearch::RemoteHeads,
        ),
        s is RemoteHeads && output.success && (output.stdout matches Some(t) && chars::lines(
            t@,
        ).len() > 0) ==> (r matches BaseStep::Continue(BaseSearch::RemoteHead { heads, next })
            && next == 0 && chars::views(heads@) == chars::lines(output.stdout->0@)),
        (s matches BaseSearch::RemoteHead { heads, next } && next + 1 < heads@.len())
            && !output.success ==> (r matches BaseStep::Continue(BaseSearch::RemoteHead {
            heads: h,
            next: n,
        }) && n == s->RemoteHead_next + 1 && h == s->RemoteHead_heads),
        (s matches BaseSearch::RemoteHead { heads, next } && next + 1 == heads@.len())
            && !output.success ==> (r matches BaseStep::Continue(BaseSearch::Candidate { next: n })
            && n == 0),
        s is RemoteHeads && !output.success ==> (r matches BaseStep::Continue(
            BaseSearch::Candidate { next: n },
        ) && n == 0),
{
}

} // verus!
