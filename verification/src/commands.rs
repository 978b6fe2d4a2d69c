//! What a run does: which files it takes, which tool gets which of them, and
//! what the results add up to.
//!
//! A run is planned before anything is touched ([`run_format`], [`run_hook`]).
//! The plan is then gone through [`Stage`] by stage; what each stage finds goes
//! into a [`FormatOutcome`].

use crate::chars;
use crate::config::Config;
use crate::config::ConfigError;
use crate::config::GjfStyle;
use crate::config::HookMode;
use crate::config::ResolvedHeader;
use crate::config::ResolvedPaths;
use crate::formatters;
use crate::formatters::CheckRun;
use crate::formatters::ToolError;
use crate::formatters::ToolOutput;
use crate::fspath;
use crate::fspath::PathSet;
use crate::git::GitContext;
use crate::git::GitError;
use crate::globs;
use crate::globs::GlobError;
use crate::hook;
use crate::hook::StagingCheck;
use crate::license::SourceKind;
use crate::paths;
use crate::paths::Scope;
use crate::paths::ToolGlobError;
use crate::pipeline;
use crate::pipeline::HeaderError;
use crate::pipeline::Headers;
use crate::snapshot::FileTexts;
use crate::text;
use crate::whitespace;
use vstd::prelude::*;

verus! {

/// What a run came to.
#[derive(Debug)]
pub struct FormatOutcome {
    /// The files that were, or would be, modified.
    pub changed: PathSet,
    /// The run was a check and found something.
    pub check_failed: bool,
    /// Errors that formatters reported, mostly of syntax. Only checks have any.
    pub parse_errors: String,
}

impl Default for FormatOutcome {
    fn default() -> (r: Self)
        ensures
            r.changed@ == Seq::<Seq<char>>::empty(),
            !r.check_failed,
            r.parse_errors@.len() == 0,
    {
        FormatOutcome {
            changed: PathSet::new(),
            check_failed: false,
            parse_errors: String::new(),
        }
    }
}

impl FormatOutcome {
    /// Whether a formatter reported errors, which formatting cannot fix.
    pub fn has_parse_errors(&self) -> (r: bool)
        ensures
            r == (self.parse_errors@.len() > 0),
    {
        !self.parse_errors.as_str().is_empty()
    }
}

/// Why there is no plan.
#[derive(Debug, PartialEq, Eq)]
pub enum RunError {
    Git(GitError),
    Config(ConfigError),
    /// A pattern of `[paths].exclude`.
    GlobalExclude(GlobError),
    /// A pattern of a tool.
    ToolGlobs(ToolGlobError),
    Header(HeaderError),
    /// Files that the hook would format are staged in part. With
    /// `experimental`, only those that are not Java files of
    /// google-java-format are named.
    PartialStaging { files: Vec<String>, experimental: bool },
}

/// Variable that lets the hook format Java files that are staged in part.
pub const EXPERIMENTAL_PARTIAL_GJF_ENV: &'static str = "KEMPT_EXPERIMENTAL_PARTIAL_GJF";

impl RunError {
    /// What the error says.
    pub open spec fn text(self) -> Seq<char> {
        match self {
            RunError::Git(e) => e.message@,
            RunError::Config(e) => e.text(),
            RunError::GlobalExclude(e) => "invalid [paths].exclude glob: "@ + e.text(),
            RunError::ToolGlobs(e) => e.text(),
            RunError::Header(e) => e.text(),
            RunError::PartialStaging { experimental, .. } => if experimental {
                "partial staging detected; "@ + EXPERIMENTAL_PARTIAL_GJF_ENV@
                    + " only supports GJF-managed Java files"@
            } else {
                "partial staging detected"@
            },
        }
    }

    /// What the error says.
    pub fn message(&self) -> (r: String)
        ensures
            r@ == self.text(),
    {
        match self {
            RunError::Git(e) => e.message.clone(),
            RunError::Config(e) => e.message(),
            RunError::GlobalExclude(e) => text::cat2(
                "invalid [paths].exclude glob: ",
                &e.message(),
            ),
            RunError::ToolGlobs(e) => e.message(),
            RunError::Header(e) => e.message(),
            RunError::PartialStaging { experimental, .. } => {
                if *experimental {
                    text::cat3(
                        "partial staging detected; ",
                        EXPERIMENTAL_PARTIAL_GJF_ENV,
                        " only supports GJF-managed Java files",
                    )
                } else {
                    "partial staging detected".to_owned()
                }
            },
        }
    }
}

/// The files of a scope were named and are taken whatever is excluded.
pub open spec fn is_forced(scope: Scope) -> bool {
    scope matches Scope::Explicit { force, .. } && force
}

/// The candidates among the files of a scope: all where they are forced, and
/// else those that `[paths].exclude` does not accept. Nothing where that list
/// cannot be used.
pub open spec fn candidates_of(
    universe: Seq<Seq<char>>,
    forced: bool,
    config: Config,
    root: Seq<char>,
    files: FileTexts,
) -> Option<Seq<Seq<char>>> {
    if forced {
        Some(universe)
    } else {
        match config.paths.exclude.patterns(root, files) {
            None => None,
            Some(ps) => if globs::well_formed(ps) {
                Some(paths::not_excluded(universe, ps))
            } else {
                None
            },
        }
    }
}

/// The error is the one that `[paths].exclude` gives.
pub open spec fn is_exclude_fault(
    config: Config,
    root: Seq<char>,
    files: FileTexts,
    e: RunError,
) -> bool {
    match config.paths.exclude.patterns(root, files) {
        None => e matches RunError::Config(c) && config.paths.exclude.unread(root, files, c),
        Some(ps) => e matches RunError::GlobalExclude(g) && g.is_for(ps),
    }
}

/// Drops from the files of a scope what `[paths].exclude` accepts, unless they
/// are forced.
pub fn select_candidates(
    universe: Vec<String>,
    forced: bool,
    config: &Config,
    repo_root: &str,
    files: &FileTexts,
) -> (r: Result<Vec<String>, RunError>)
    ensures
        match r {
            Ok(v) => candidates_of(
                chars::views(universe@),
                forced,
                *config,
                repo_root@,
                *files,
            ) == Some(chars::views(v@)),
            Err(e) => candidates_of(
                chars::views(universe@),
                forced,
                *config,
                repo_root@,
                *files,
            ) is None && is_exclude_fault(*config, repo_root@, *files, e),
        },
{
    if forced {
        return Ok(universe);
    }
    let patterns = match config.paths.exclude.resolve(repo_root, files) {
        Ok(p) => p,
        Err(e) => {
            return Err(RunError::Config(e));
        },
    };
    let set = match paths::build_globset(&patterns) {
        Ok(s) => s,
        Err(e) => {
            return Err(RunError::GlobalExclude(e));
        },
    };
    Ok(paths::apply_global_excludes(universe, &set))
}

/// The answer of git on the files of a scope.
pub open spec fn answers_scope<G: GitContext>(
    git: &G,
    scope: Scope,
    walked: Vec<String>,
    answer: Result<Vec<String>, GitError>,
) -> bool {
    match scope {
        Scope::All => call_ensures(G::ls_files, (git,), answer),
        Scope::Staged => call_ensures(G::staged_files, (git,), answer),
        Scope::Walk => answer == Ok::<Vec<String>, GitError>(walked),
        Scope::Explicit { files, .. } => answer == Ok::<Vec<String>, GitError>(files),
    }
}

/// The candidates of a scope. Which of them a tool takes is decided later.
pub fn collect_candidates<G: GitContext>(
    git: &G,
    scope: Scope,
    walked: Vec<String>,
    config: &Config,
    repo_root: &str,
    files: &FileTexts,
) -> (r: Result<Vec<String>, RunError>)
    ensures
        exists|answer: Result<Vec<String>, GitError>| #[trigger]
            answers_scope(git, scope, walked, answer) && match answer {
                Ok(universe) => match r {
                    Ok(v) => candidates_of(
                        chars::views(universe@),
                        is_forced(scope),
                        *config,
                        repo_root@,
                        *files,
                    ) == Some(chars::views(v@)),
                    Err(e) => candidates_of(
                        chars::views(universe@),
                        is_forced(scope),
                        *config,
                        repo_root@,
                        *files,
                    ) is None && is_exclude_fault(*config, repo_root@, *files, e),
                },
                Err(e) => r == Err::<Vec<String>, _>(RunError::Git(e)),
            },
{
    let forced = match &scope {
        Scope::Explicit { force, .. } => *force,
        _ => false,
    };
    let answer = paths::collect_universe(git, scope, walked);
    assert(answers_scope(git, scope, walked, answer));
    match answer {
        Ok(universe) => select_candidates(universe, forced, config, repo_root, files),
        Err(e) => Err(RunError::Git(e)),
    }
}

/// The patterns of a tool as sets.
pub struct ToolGlobs {
    pub includes: globset::GlobSet,
    pub exclude: globset::GlobSet,
}

impl ToolGlobs {
    pub open spec fn patterns(self) -> (Seq<Seq<char>>, Seq<Seq<char>>) {
        (globs::set_patterns(self.includes), globs::set_patterns(self.exclude))
    }
}

/// A tool with these include and exclude patterns takes the file. Excludes do
/// not count where the files are forced.
pub open spec fn takes(
    patterns: (Seq<Seq<char>>, Seq<Seq<char>>),
    forced: bool,
    path: Seq<char>,
) -> bool {
    globs::any_accepts(patterns.0, path) && (forced || !globs::any_accepts(patterns.1, path))
}

fn tool_takes(g: &ToolGlobs, forced: bool, path: &str) -> (r: bool)
    ensures
        r == takes(g.patterns(), forced, path@),
{
    globs::is_match(&g.includes, path) && (forced || !globs::is_match(&g.exclude, path))
}

/// The patterns can be read and make sets.
pub open spec fn scope_builds(scope: Option<(Seq<Seq<char>>, Seq<Seq<char>>)>) -> bool {
    scope matches Some((i, e)) && globs::well_formed(i) && globs::well_formed(e)
}

/// Makes the sets of a tool from its patterns.
fn build_tool_globs(resolved: Result<ResolvedPaths, ConfigError>) -> (r: Result<
    ToolGlobs,
    RunError,
>)
    ensures
        match resolved {
            Ok(rp) => match r {
                Ok(g) => g.patterns() == (chars::views(rp.includes@), chars::views(rp.exclude@))
                    && globs::well_formed(chars::views(rp.includes@)) && globs::well_formed(
                    chars::views(rp.exclude@),
                ),
                Err(e) => !(globs::well_formed(chars::views(rp.includes@)) && globs::well_formed(
                    chars::views(rp.exclude@),
                )) && is_glob_fault(chars::views(rp.includes@), chars::views(rp.exclude@), e),
            },
            Err(e) => r matches Err(RunError::Config(f)) && f == e,
        },
{
    match resolved {
        Ok(rp) => match paths::tool_globset(&rp) {
            Ok((includes, exclude)) => Ok(ToolGlobs { includes, exclude }),
            Err(e) => Err(RunError::ToolGlobs(e)),
        },
        Err(e) => Err(RunError::Config(e)),
    }
}

/// The error is the one that these patterns give.
pub open spec fn is_glob_fault(
    includes: Seq<Seq<char>>,
    exclude: Seq<Seq<char>>,
    e: RunError,
) -> bool {
    if !globs::well_formed(includes) {
        e matches RunError::ToolGlobs(ToolGlobError::Includes(g)) && g.is_for(includes)
    } else {
        e matches RunError::ToolGlobs(ToolGlobError::Excludes(g)) && g.is_for(exclude)
    }
}

/// The error is the one that a tool's scope gives.
pub open spec fn is_scope_fault(
    own: Option<crate::config::ToolPaths>,
    defaults: Seq<Seq<char>>,
    root: Seq<char>,
    files: FileTexts,
    e: RunError,
) -> bool {
    match crate::config::scope_or_default(own, root, files, defaults) {
        None => own matches Some(p) && (e matches RunError::Config(c) && p.unread(root, files, c)),
        Some((i, x)) => is_glob_fault(i, x, e),
    }
}

/// Which tool takes which files.
pub struct ToolScopes {
    pub ktfmt: Option<ToolGlobs>,
    pub gjf: Option<ToolGlobs>,
    pub rustfmt: Option<ToolGlobs>,
    pub whitespace: ToolGlobs,
    /// Excludes do not count.
    pub forced: bool,
}

/// The patterns of optional sets.
pub open spec fn opt_patterns(g: Option<ToolGlobs>) -> Option<(Seq<Seq<char>>, Seq<Seq<char>>)> {
    match g {
        Some(g) => Some(g.patterns()),
        None => None,
    }
}

impl Config {
    /// The patterns of ktfmt, where it is configured and they can be read.
    pub open spec fn ktfmt_scope(self, root: Seq<char>, files: FileTexts) -> Option<
        (Seq<Seq<char>>, Seq<Seq<char>>),
    > {
        match self.ktfmt {
            Some(k) => crate::config::scope_or_default(
                k.paths,
                root,
                files,
                crate::config::kotlin_patterns(),
            ),
            None => None,
        }
    }

    /// The patterns of google-java-format.
    pub open spec fn gjf_scope(self, root: Seq<char>, files: FileTexts) -> Option<
        (Seq<Seq<char>>, Seq<Seq<char>>),
    > {
        match self.gjf {
            Some(g) => crate::config::scope_or_default(
                g.paths,
                root,
                files,
                crate::config::java_patterns(),
            ),
            None => None,
        }
    }

    /// The patterns of rustfmt.
    pub open spec fn rustfmt_scope(self, root: Seq<char>, files: FileTexts) -> Option<
        (Seq<Seq<char>>, Seq<Seq<char>>),
    > {
        match self.rustfmt {
            Some(r) => crate::config::scope_or_default(
                r.paths,
                root,
                files,
                crate::config::rust_patterns(),
            ),
            None => None,
        }
    }

    /// The patterns of the whitespace passes.
    pub open spec fn whitespace_scope(self, root: Seq<char>, files: FileTexts) -> Option<
        (Seq<Seq<char>>, Seq<Seq<char>>),
    > {
        crate::config::scope_or_default(
            self.whitespace.paths,
            root,
            files,
            crate::config::source_patterns(),
        )
    }

    /// The patterns of every configured tool can be read and make sets.
    pub open spec fn scopes_build(self, root: Seq<char>, files: FileTexts) -> bool {
        &&& self.ktfmt is Some ==> scope_builds(self.ktfmt_scope(root, files))
        &&& self.gjf is Some ==> scope_builds(self.gjf_scope(root, files))
        &&& self.rustfmt is Some ==> scope_builds(self.rustfmt_scope(root, files))
        &&& scope_builds(self.whitespace_scope(root, files))
    }

    /// The error is that of the first tool whose patterns cannot be used.
    pub open spec fn is_scopes_fault(self, root: Seq<char>, files: FileTexts, e: RunError) -> bool {
        if self.ktfmt is Some && !scope_builds(self.ktfmt_scope(root, files)) {
            is_scope_fault(self.ktfmt->0.paths, crate::config::kotlin_patterns(), root, files, e)
        } else if self.gjf is Some && !scope_builds(self.gjf_scope(root, files)) {
            is_scope_fault(self.gjf->0.paths, crate::config::java_patterns(), root, files, e)
        } else if self.rustfmt is Some && !scope_builds(self.rustfmt_scope(root, files)) {
            is_scope_fault(self.rustfmt->0.paths, crate::config::rust_patterns(), root, files, e)
        } else {
            is_scope_fault(
                self.whitespace.paths,
                crate::config::source_patterns(),
                root,
                files,
                e,
            )
        }
    }
}

impl ToolScopes {
    /// These are the scopes of the configuration.
    pub open spec fn are_for(
        self,
        config: Config,
        root: Seq<char>,
        files: FileTexts,
        forced: bool,
    ) -> bool {
        &&& opt_patterns(self.ktfmt) == config.ktfmt_scope(root, files)
        &&& opt_patterns(self.gjf) == config.gjf_scope(root, files)
        &&& opt_patterns(self.rustfmt) == config.rustfmt_scope(root, files)
        &&& Some(self.whitespace.patterns()) == config.whitespace_scope(root, files)
        &&& self.forced == forced
    }

    /// Makes the sets of all tools.
    pub fn build(config: &Config, repo_root: &str, files: &FileTexts, forced: bool) -> (r: Result<
        Self,
        RunError,
    >)
        ensures
            match r {
                Ok(s) => config.scopes_build(repo_root@, *files) && s.are_for(
                    *config,
                    repo_root@,
                    *files,
                    forced,
                ),
                Err(e) => !config.scopes_build(repo_root@, *files) && config.is_scopes_fault(
                    repo_root@,
                    *files,
                    e,
                ),
            },
    {
        let ktfmt = match &config.ktfmt {
            Some(k) => match build_tool_globs(k.resolve_paths(repo_root, files)) {
                Ok(g) => Some(g),
                Err(e) => {
                    return Err(e);
                },
            },
            None => None,
        };
        let gjf = match &config.gjf {
            Some(g) => match build_tool_globs(g.resolve_paths(repo_root, files)) {
                Ok(g) => Some(g),
                Err(e) => {
                    return Err(e);
                },
            },
            None => None,
        };
        let rustfmt = match &config.rustfmt {
            Some(r) => match build_tool_globs(r.resolve_paths(repo_root, files)) {
                Ok(g) => Some(g),
                Err(e) => {
                    return Err(e);
                },
            },
            None => None,
        };
        let whitespace = match build_tool_globs(
            config.whitespace.resolve_paths(repo_root, files),
        ) {
            Ok(g) => g,
            Err(e) => {
                return Err(e);
            },
        };
        Ok(ToolScopes { ktfmt, gjf, rustfmt, whitespace, forced })
    }

    pub open spec fn ktfmt_takes(self, path: Seq<char>) -> bool {
        self.ktfmt matches Some(g) && takes(g.patterns(), self.forced, path)
    }

    pub open spec fn gjf_takes(self, path: Seq<char>) -> bool {
        self.gjf matches Some(g) && takes(g.patterns(), self.forced, path)
    }

    pub open spec fn rustfmt_takes(self, path: Seq<char>) -> bool {
        self.rustfmt matches Some(g) && takes(g.patterns(), self.forced, path)
    }

    /// Whether ktfmt takes the file.
    pub fn matches_ktfmt(&self, path: &str) -> (r: bool)
        ensures
            r == self.ktfmt_takes(path@),
    {
        match &self.ktfmt {
            Some(g) => tool_takes(g, self.forced, path),
            None => false,
        }
    }

    /// Whether google-java-format takes the file.
    pub fn matches_gjf(&self, path: &str) -> (r: bool)
        ensures
            r == self.gjf_takes(path@),
    {
        match &self.gjf {
            Some(g) => tool_takes(g, self.forced, path),
            None => false,
        }
    }

    /// Whether rustfmt takes the file.
    pub fn matches_rustfmt(&self, path: &str) -> (r: bool)
        ensures
            r == self.rustfmt_takes(path@),
    {
        match &self.rustfmt {
            Some(g) => tool_takes(g, self.forced, path),
            None => false,
        }
    }

    /// Whether the whitespace passes take the file.
    pub fn matches_whitespace(&self, path: &str) -> (r: bool)
        ensures
            r == takes(self.whitespace.patterns(), self.forced, path@),
    {
        tool_takes(&self.whitespace, self.forced, path)
    }
}

/// What the steps that need no other program do to a file.
#[derive(Debug)]
pub struct PipelineTask {
    /// The file, relative to the repository root.
    pub path: String,
    pub kind: SourceKind,
    /// The header and its marker.
    pub header: Option<(String, String)>,
    pub ws: whitespace::Options,
}

/// A task without the strings.
pub struct TaskModel {
    pub path: Seq<char>,
    pub kind: SourceKind,
    pub header: Option<(Seq<char>, Seq<char>)>,
    pub ws: whitespace::Options,
}

/// The characters of an optional header and marker.
pub open spec fn header_pair(h: Option<(String, String)>) -> Option<(Seq<char>, Seq<char>)> {
    match h {
        Some((a, b)) => Some((a@, b@)),
        None => None,
    }
}

impl PipelineTask {
    pub open spec fn model(self) -> TaskModel {
        TaskModel {
            path: self.path@,
            kind: self.kind,
            header: header_pair(self.header),
            ws: self.ws,
        }
    }
}

/// The header that goes onto a file of a kind: none where there is none for the
/// kind or its excludes accept the file. Whether a formatter takes the file does
/// not matter.
pub open spec fn header_of(headers: Headers, kind: SourceKind, path: Seq<char>) -> Option<
    (Seq<char>, Seq<char>),
> {
    match headers.of_kind(kind) {
        Some(h) => if globs::any_accepts(globs::set_patterns(h.excludes), path) {
            None
        } else {
            Some((h.rendered@, h.marker@))
        },
        None => None,
    }
}

/// The whitespace passes that run on a file.
pub open spec fn passes_on(
    scopes: ToolScopes,
    ws: whitespace::Options,
    path: Seq<char>,
) -> whitespace::Options {
    if takes(scopes.whitespace.patterns(), scopes.forced, path) {
        ws
    } else {
        whitespace::Options { strip_trailing: false, final_newline: false }
    }
}

/// What is done to a file; nothing where it is no source that is known, or no
/// step would touch it.
pub open spec fn task_for(
    headers: Headers,
    scopes: ToolScopes,
    ws: whitespace::Options,
    path: Seq<char>,
) -> Option<TaskModel> {
    match crate::license::kind_of_path(path) {
        None => None,
        Some(kind) => {
            let header = header_of(headers, kind, path);
            let passes = passes_on(scopes, ws, path);
            if header is None && !passes.strip_trailing && !passes.final_newline {
                None
            } else {
                Some(TaskModel { path, kind, header, ws: passes })
            }
        },
    }
}

/// Decides what is done to a file.
pub fn plan_file(headers: &Headers, scopes: &ToolScopes, ws: whitespace::Options, path: &str) -> (r:
    Option<PipelineTask>)
    ensures
        match r {
            Some(t) => task_for(*headers, *scopes, ws, path@) == Some(t.model()),
            None => task_for(*headers, *scopes, ws, path@) is None,
        },
{
    let kind = match SourceKind::from_path(path) {
        Some(k) => k,
        None => {
            return None;
        },
    };
    let header = match headers.for_kind(kind) {
        Some(h) => {
            if h.is_excluded(path) {
                None
            } else {
                Some((h.rendered.clone(), h.marker.clone()))
            }
        },
        None => None,
    };
    let passes = if scopes.matches_whitespace(path) {
        ws
    } else {
        whitespace::Options::default()
    };
    if header.is_none() && !passes.strip_trailing && !passes.final_newline {
        return None;
    }
    Some(PipelineTask { path: path.to_owned(), kind, header, ws: passes })
}

/// The tasks of the files, in order.
pub open spec fn tasks_for(
    headers: Headers,
    scopes: ToolScopes,
    ws: whitespace::Options,
    files: Seq<Seq<char>>,
) -> Seq<TaskModel>
    decreases files.len(),
{
    if files.len() == 0 {
        Seq::empty()
    } else {
        let rest = tasks_for(headers, scopes, ws, files.drop_last());
        match task_for(headers, scopes, ws, files.last()) {
            Some(t) => rest.push(t),
            None => rest,
        }
    }
}

/// The models of tasks.
pub open spec fn models(tasks: Seq<PipelineTask>) -> Seq<TaskModel> {
    tasks.map_values(|t: PipelineTask| t.model())
}

/// Decides what is done to the files.
pub fn plan_files(
    headers: &Headers,
    scopes: &ToolScopes,
    ws: whitespace::Options,
    files: &Vec<String>,
) -> (r: Vec<PipelineTask>)
    ensures
        models(r@) == tasks_for(*headers, *scopes, ws, chars::views(files@)),
{
    let ghost all = chars::views(files@);
    let mut r: Vec<PipelineTask> = Vec::new();
    let mut i: usize = 0;
    assert(models(r@) =~= tasks_for(*headers, *scopes, ws, all.take(0)));
    while i < files.len()
        invariant
            i <= files.len(),
            all == chars::views(files@),
            models(r@) == tasks_for(*headers, *scopes, ws, all.take(i as int)),
        decreases files.len() - i,
    {
        let ghost before = models(r@);
        assert(all.take(i + 1).drop_last() =~= all.take(i as int));
        assert(all[i as int] == files@[i as int]@);
        match plan_file(headers, scopes, ws, &files[i]) {
            Some(t) => {
                let ghost m = t.model();
                r.push(t);
                assert(models(r@) =~= before.push(m));
            },
            None => {},
        }
        i += 1;
    }
    assert(all.take(i as int) =~= all);
    r
}

/// A file to be written.
#[derive(Debug, PartialEq, Eq)]
pub struct FileWrite {
    pub path: String,
    pub content: String,
}

/// What a task makes of the text of its file.
pub open spec fn new_text(t: TaskModel, content: Seq<char>) -> Seq<char> {
    pipeline::processed(content, t.kind, t.header, t.ws)
}

/// A task does something to the text of its file.
pub open spec fn changes(t: TaskModel, content: Seq<char>) -> bool {
    pipeline::report_of(content, t.kind, t.header, t.ws).any()
}

/// The files that the tasks change, in order.
pub open spec fn changed_files(tasks: Seq<TaskModel>, contents: Seq<Seq<char>>) -> Seq<Seq<char>>
    decreases tasks.len(),
{
    if tasks.len() == 0 {
        Seq::empty()
    } else {
        let rest = changed_files(tasks.drop_last(), contents);
        let n = tasks.len() - 1;
        if changes(tasks[n], contents[n]) {
            rest.push(tasks[n].path)
        } else {
            rest
        }
    }
}

/// The new texts of the files that the tasks change, in order.
pub open spec fn changed_texts(
    tasks: Seq<TaskModel>,
    contents: Seq<Seq<char>>,
    root: Seq<char>,
) -> Seq<(Seq<char>, Seq<char>)>
    decreases tasks.len(),
{
    if tasks.len() == 0 {
        Seq::empty()
    } else {
        let rest = changed_texts(tasks.drop_last(), contents, root);
        let n = tasks.len() - 1;
        if changes(tasks[n], contents[n]) {
            rest.push((fspath::joined(root, tasks[n].path), new_text(tasks[n], contents[n])))
        } else {
            rest
        }
    }
}

/// The texts of all files after the tasks ran.
pub open spec fn formatted(tasks: Seq<TaskModel>, contents: Seq<Seq<char>>) -> Seq<Seq<char>> {
    Seq::new(contents.len(), |i: int| new_text(tasks[i], contents[i]))
}

/// The header of a task, where there is one, is a text that its marker finds.
pub open spec fn has_usable_header(t: TaskModel) -> bool {
    t.header matches Some((rendered, marker)) ==> crate::license::marked(rendered, marker)
        && !whitespace::is_blank(marker.last())
}

proof fn lemma_formatted_prefix(tasks: Seq<TaskModel>, contents: Seq<Seq<char>>, n: nat)
    requires
        n <= tasks.len() == contents.len(),
        forall|i: int| 0 <= i < tasks.len() ==> has_usable_header(#[trigger] tasks[i]),
    ensures
        changed_files(tasks.take(n as int), formatted(tasks, contents)).len() == 0,
    decreases n,
{
    if n > 0 {
        let t = tasks[n - 1];
        assert(has_usable_header(t));
        assert(tasks.take(n as int).drop_last() =~= tasks.take(n - 1));
        lemma_formatted_prefix(tasks, contents, (n - 1) as nat);
        pipeline::process_is_idempotent(contents[n - 1], t.kind, t.header, t.ws);
    }
}

/// After the tasks ran, a check of the same tasks finds nothing.
pub proof fn formatted_files_pass_the_check(tasks: Seq<TaskModel>, contents: Seq<Seq<char>>)
    requires
        tasks.len() == contents.len(),
        forall|i: int| 0 <= i < tasks.len() ==> has_usable_header(#[trigger] tasks[i]),
    ensures
        changed_files(tasks, formatted(tasks, contents)).len() == 0,
{
    lemma_formatted_prefix(tasks, contents, tasks.len());
    assert(tasks.take(tasks.len() as int) =~= tasks);
}

/// Paths and texts of files to be written.
pub open spec fn write_views(v: Seq<FileWrite>) -> Seq<(Seq<char>, Seq<char>)> {
    v.map_values(|w: FileWrite| (w.path@, w.content@))
}

/// Runs the tasks on the texts of their files: what they add up to, and the
/// files to be written. A check writes nothing.
pub fn apply_pipeline(
    tasks: &Vec<PipelineTask>,
    contents: &Vec<String>,
    repo_root: &str,
    check: bool,
) -> (r: (FormatOutcome, Vec<FileWrite>))
    requires
        contents@.len() == tasks@.len(),
    ensures
        r.0.changed@ == fspath::inserted_all(
            Seq::empty(),
            changed_files(models(tasks@), chars::views(contents@)),
        ),
        r.0.check_failed == (check && changed_files(
            models(tasks@),
            chars::views(contents@),
        ).len() > 0),
        r.0.parse_errors@.len() == 0,
        write_views(r.1@) == if check {
            Seq::<(Seq<char>, Seq<char>)>::empty()
        } else {
            changed_texts(models(tasks@), chars::views(contents@), repo_root@)
        },
{
    let ghost ms = models(tasks@);
    let ghost texts = chars::views(contents@);
    let mut report = pipeline::PipelineReport::default();
    let mut writes: Vec<FileWrite> = Vec::new();
    let mut i: usize = 0;
    assert(chars::views(report.changed@) =~= changed_files(ms.take(0), texts));
    assert(write_views(writes@) =~= changed_texts(ms.take(0), texts, repo_root@));
    assert(write_views(writes@) =~= Seq::empty());
    while i < tasks.len()
        invariant
            i <= tasks.len(),
            tasks.len() == contents.len(),
            ms == models(tasks@),
            texts == chars::views(contents@),
            chars::views(report.changed@) == changed_files(ms.take(i as int), texts),
            !check ==> write_views(writes@) == changed_texts(
                ms.take(i as int),
                texts,
                repo_root@,
            ),
            check ==> write_views(writes@) == Seq::<(Seq<char>, Seq<char>)>::empty(),
        decreases tasks.len() - i,
    {
        let t = &tasks[i];
        let ghost before = write_views(writes@);
        assert(ms.take(i + 1).drop_last() =~= ms.take(i as int));
        assert(ms[i as int] == t.model());
        assert(texts[i as int] == contents@[i as int]@);
        let header = match &t.header {
            Some((rendered, marker)) => Some((rendered.as_str(), marker.as_str())),
            None => None,
        };
        assert(pipeline::header_view(header) == ms[i as int].header);
        let (content, file_report) = pipeline::process_content(&contents[i], t.kind, header, t.ws);
        report.record(&t.path, &file_report);
        if file_report.changed() && !check {
            let path = fspath::join(repo_root, &t.path);
            writes.push(FileWrite { path, content });
            assert(write_views(writes@) =~= before.push((path@, content@)));
        }
        i += 1;
    }
    assert(ms.take(i as int) =~= ms);
    let mut outcome = FormatOutcome::default();
    outcome.changed.extend(&report.changed);
    if check && report.changed.len() > 0 {
        outcome.check_failed = true;
    }
    assert(chars::views(report.changed@).len() == report.changed@.len());
    (outcome, writes)
}

/// The files that ktfmt takes, in order.
pub open spec fn ktfmt_files(scopes: ToolScopes, files: Seq<Seq<char>>) -> Seq<Seq<char>>
    decreases files.len(),
{
    if files.len() == 0 {
        Seq::empty()
    } else {
        let rest = ktfmt_files(scopes, files.drop_last());
        if scopes.ktfmt_takes(files.last()) {
            rest.push(files.last())
        } else {
            rest
        }
    }
}

fn take_ktfmt(scopes: &ToolScopes, files: &Vec<String>) -> (r: Vec<String>)
    ensures
        chars::views(r@) == ktfmt_files(*scopes, chars::views(files@)),
{
    let ghost all = chars::views(files@);
    let mut r: Vec<String> = Vec::new();
    let mut i: usize = 0;
    assert(chars::views(r@) =~= ktfmt_files(*scopes, all.take(0)));
    while i < files.len()
        invariant
            i <= files.len(),
            all == chars::views(files@),
            chars::views(r@) == ktfmt_files(*scopes, all.take(i as int)),
        decreases files.len() - i,
    {
        let ghost before = chars::views(r@);
        assert(all.take(i + 1).drop_last() =~= all.take(i as int));
        assert(all[i as int] == files@[i as int]@);
        if scopes.matches_ktfmt(&files[i]) {
            r.push(files[i].clone());
            assert(chars::views(r@) =~= before.push(all[i as int]));
        }
        i += 1;
    }
    assert(all.take(i as int) =~= all);
    r
}

/// The files that google-java-format takes, in order.
pub open spec fn gjf_files(scopes: ToolScopes, files: Seq<Seq<char>>) -> Seq<Seq<char>>
    decreases files.len(),
{
    if files.len() == 0 {
        Seq::empty()
    } else {
        let rest = gjf_files(scopes, files.drop_last());
        if scopes.gjf_takes(files.last()) {
            rest.push(files.last())
        } else {
            rest
        }
    }
}

fn take_gjf(scopes: &ToolScopes, files: &Vec<String>) -> (r: Vec<String>)
    ensures
        chars::views(r@) == gjf_files(*scopes, chars::views(files@)),
{
    let ghost all = chars::views(files@);
    let mut r: Vec<String> = Vec::new();
    let mut i: usize = 0;
    assert(chars::views(r@) =~= gjf_files(*scopes, all.take(0)));
    while i < files.len()
        invariant
            i <= files.len(),
            all == chars::views(files@),
            chars::views(r@) == gjf_files(*scopes, all.take(i as int)),
        decreases files.len() - i,
    {
        let ghost before = chars::views(r@);
        assert(all.take(i + 1).drop_last() =~= all.take(i as int));
        assert(all[i as int] == files@[i as int]@);
        if scopes.matches_gjf(&files[i]) {
            r.push(files[i].clone());
            assert(chars::views(r@) =~= before.push(all[i as int]));
        }
        i += 1;
    }
    assert(all.take(i as int) =~= all);
    r
}

/// The files that rustfmt takes, in order.
pub open spec fn rustfmt_files(scopes: ToolScopes, files: Seq<Seq<char>>) -> Seq<Seq<char>>
    decreases files.len(),
{
    if files.len() == 0 {
        Seq::empty()
    } else {
        let rest = rustfmt_files(scopes, files.drop_last());
        if scopes.rustfmt_takes(files.last()) {
            rest.push(files.last())
        } else {
            rest
        }
    }
}

fn take_rustfmt(scopes: &ToolScopes, files: &Vec<String>) -> (r: Vec<String>)
    ensures
        chars::views(r@) == rustfmt_files(*scopes, chars::views(files@)),
{
    let ghost all = chars::views(files@);
    let mut r: Vec<String> = Vec::new();
    let mut i: usize = 0;
    assert(chars::views(r@) =~= rustfmt_files(*scopes, all.take(0)));
    while i < files.len()
        invariant
            i <= files.len(),
            all == chars::views(files@),
            chars::views(r@) == rustfmt_files(*scopes, all.take(i as int)),
        decreases files.len() - i,
    {
        let ghost before = chars::views(r@);
        assert(all.take(i + 1).drop_last() =~= all.take(i as int));
        assert(all[i as int] == files@[i as int]@);
        if scopes.matches_rustfmt(&files[i]) {
            r.push(files[i].clone());
            assert(chars::views(r@) =~= before.push(all[i as int]));
        }
        i += 1;
    }
    assert(all.take(i as int) =~= all);
    r
}

fn is_java(path: &str) -> (r: bool)
    ensures
        r == (crate::license::kind_of_path(path@) == Some(SourceKind::Java)),
{
    match SourceKind::from_path(path) {
        Some(SourceKind::Java) => true,
        _ => false,
    }
}

/// The Java files that google-java-format takes, in order.
pub open spec fn partial_gjf_files(scopes: ToolScopes, files: Seq<Seq<char>>) -> Seq<Seq<char>>
    decreases files.len(),
{
    if files.len() == 0 {
        Seq::empty()
    } else {
        let rest = partial_gjf_files(scopes, files.drop_last());
        if crate::license::kind_of_path(files.last()) == Some(SourceKind::Java) && scopes.gjf_takes(
            files.last(),
        ) {
            rest.push(files.last())
        } else {
            rest
        }
    }
}

fn take_partial_gjf(scopes: &ToolScopes, files: &Vec<String>) -> (r: Vec<String>)
    ensures
        chars::views(r@) == partial_gjf_files(*scopes, chars::views(files@)),
{
    let ghost all = chars::views(files@);
    let mut r: Vec<String> = Vec::new();
    let mut i: usize = 0;
    assert(chars::views(r@) =~= partial_gjf_files(*scopes, all.take(0)));
    while i < files.len()
        invariant
            i <= files.len(),
            all == chars::views(files@),
            chars::views(r@) == partial_gjf_files(*scopes, all.take(i as int)),
        decreases files.len() - i,
    {
        let ghost before = chars::views(r@);
        assert(all.take(i + 1).drop_last() =~= all.take(i as int));
        assert(all[i as int] == files@[i as int]@);
        if is_java(&files[i]) && scopes.matches_gjf(&files[i]) {
            r.push(files[i].clone());
            assert(chars::views(r@) =~= before.push(all[i as int]));
        }
        i += 1;
    }
    assert(all.take(i as int) =~= all);
    r
}

/// Each file, taken from the repository root.
fn absolute_files(repo_root: &str, files: &Vec<String>) -> (r: Vec<String>)
    ensures
        chars::views(r@) == crate::config::joined_all(repo_root@, chars::views(files@)),
{
    let ghost all = chars::views(files@);
    let mut r: Vec<String> = Vec::new();
    let mut i: usize = 0;
    while i < files.len()
        invariant
            i <= files.len(),
            all == chars::views(files@),
            chars::views(r@) =~= crate::config::joined_all(repo_root@, all.take(i as int)),
        decreases files.len() - i,
    {
        let ghost before = chars::views(r@);
        let p = fspath::join(repo_root, &files[i]);
        assert(all[i as int] == files@[i as int]@);
        r.push(p);
        assert(chars::views(r@) =~= before.push(p@));
        assert(crate::config::joined_all(repo_root@, all.take(i + 1))
            =~= crate::config::joined_all(repo_root@, all.take(i as int)).push(p@));
        i += 1;
    }
    assert(all.take(i as int) =~= all);
    r
}

/// What a run is going to do.
#[derive(Debug)]
pub struct RunPlan {
    /// Nothing is written.
    pub check: bool,
    /// What is changed is staged again.
    pub restage: bool,
    /// What the steps that need no other program do.
    pub tasks: Vec<PipelineTask>,
    /// The files of ktfmt, absolute.
    pub ktfmt: Vec<String>,
    /// The files of google-java-format, absolute.
    pub gjf: Vec<String>,
    /// The files of rustfmt, relative to the repository root.
    pub rustfmt: Vec<String>,
    /// The files that google-java-format formats in the index alone, relative
    /// to the repository root.
    pub partial_gjf: Vec<String>,
}

impl RunPlan {
    /// The plan takes the files as these headers, scopes and passes say.
    pub open spec fn follows(
        self,
        headers: Headers,
        scopes: ToolScopes,
        ws: whitespace::Options,
        root: Seq<char>,
        files: Seq<Seq<char>>,
    ) -> bool {
        &&& models(self.tasks@) == tasks_for(headers, scopes, ws, files)
        &&& chars::views(self.ktfmt@) == crate::config::joined_all(root, ktfmt_files(scopes, files))
        &&& chars::views(self.gjf@) == crate::config::joined_all(root, gjf_files(scopes, files))
        &&& chars::views(self.rustfmt@) == rustfmt_files(scopes, files)
    }

    /// The plan is the one that the configuration gives for the files.
    pub open spec fn is_for(
        self,
        config: Config,
        root: Seq<char>,
        texts: FileTexts,
        files: Seq<Seq<char>>,
        forced: bool,
        year: nat,
    ) -> bool {
        exists|h: Headers, s: ToolScopes|
            h.are_made_from(config, root, texts, year) && s.are_for(config, root, texts, forced)
                && #[trigger] self.follows(
                h,
                s,
                whitespace::Options {
                    strip_trailing: config.whitespace.strip_trailing,
                    final_newline: config.whitespace.final_newline,
                },
                root,
                files,
            )
    }
}

proof fn lemma_not_excluded(files: Seq<Seq<char>>, patterns: Seq<Seq<char>>, path: Seq<char>)
    ensures
        paths::not_excluded(files, patterns).contains(path) == (files.contains(path)
            && !globs::any_accepts(patterns, path)),
    decreases files.len(),
{
    reveal(Seq::filter);
    if files.len() > 0 {
        let rest = paths::not_excluded(files.drop_last(), patterns);
        lemma_not_excluded(files.drop_last(), patterns, path);
        lemma_contains_last(files, path);
        lemma_contains_push(rest, files.last(), path);
    }
}

proof fn lemma_contains_last(files: Seq<Seq<char>>, path: Seq<char>)
    requires
        files.len() > 0,
    ensures
        files.contains(path) == (files.drop_last().contains(path) || files.last() == path),
{
    assert(files =~= files.drop_last().push(files.last()));
    lemma_contains_push(files.drop_last(), files.last(), path);
}

proof fn lemma_contains_push(files: Seq<Seq<char>>, last: Seq<char>, path: Seq<char>)
    ensures
        files.push(last).contains(path) == (files.contains(path) || last == path),
{
    let all = files.push(last);
    assert(all[files.len() as int] == last);
    if files.contains(path) {
        let i = choose|i: int| 0 <= i < files.len() && files[i] == path;
        assert(all[i] == path);
    }
    if all.contains(path) {
        let i = choose|i: int| 0 <= i < all.len() && all[i] == path;
        if i < files.len() {
            assert(files[i] == path);
        }
    }
}

proof fn lemma_tool_files(s: ToolScopes, files: Seq<Seq<char>>, path: Seq<char>)
    ensures
        ktfmt_files(s, files).contains(path) == (files.contains(path) && s.ktfmt_takes(path)),
        gjf_files(s, files).contains(path) == (files.contains(path) && s.gjf_takes(path)),
        rustfmt_files(s, files).contains(path) == (files.contains(path) && s.rustfmt_takes(path)),
    decreases files.len(),
{
    if files.len() > 0 {
        let t = files.drop_last();
        lemma_tool_files(s, t, path);
        lemma_contains_last(files, path);
        lemma_contains_push(ktfmt_files(s, t), files.last(), path);
        lemma_contains_push(gjf_files(s, t), files.last(), path);
        lemma_contains_push(rustfmt_files(s, t), files.last(), path);
    }
}

/// Among include and exclude patterns, the path is one that they select.
pub open spec fn in_scope(
    scope: Option<(Seq<Seq<char>>, Seq<Seq<char>>)>,
    path: Seq<char>,
) -> bool {
    scope matches Some((i, e)) && globs::any_accepts(i, path) && !globs::any_accepts(e, path)
}

/// A formatter gets a file exactly where the file is in the scope of the run,
/// `[paths].exclude` does not accept it, the formatter is configured and its
/// includes accept the file and its excludes do not. Forced runs are left out:
/// they ignore the excludes.
pub proof fn formatters_get_exactly_their_files(
    config: Config,
    root: Seq<char>,
    texts: FileTexts,
    universe: Seq<Seq<char>>,
    files: Seq<Seq<char>>,
    s: ToolScopes,
    path: Seq<char>,
)
    requires
        candidates_of(universe, false, config, root, texts) == Some(files),
        s.are_for(config, root, texts, false),
    ensures
        ({
            let candidate = universe.contains(path) && !globs::any_accepts(
                config.paths.exclude.patterns(root, texts)->0,
                path,
            );
            &&& ktfmt_files(s, files).contains(path) <==> candidate && in_scope(
                config.ktfmt_scope(root, texts),
                path,
            )
            &&& gjf_files(s, files).contains(path) <==> candidate && in_scope(
                config.gjf_scope(root, texts),
                path,
            )
            &&& rustfmt_files(s, files).contains(path) <==> candidate && in_scope(
                config.rustfmt_scope(root, texts),
                path,
            )
        }),
{
    lemma_not_excluded(universe, config.paths.exclude.patterns(root, texts)->0, path);
    lemma_tool_files(s, files, path);
}

/// A header goes onto a file whatever the scopes of the tools are: its extension
/// and the excludes of the header alone decide.
pub proof fn headers_ignore_the_scopes(
    headers: Headers,
    scopes: ToolScopes,
    ws: whitespace::Options,
    path: Seq<char>,
    kind: SourceKind,
)
    requires
        crate::license::kind_of_path(path) == Some(kind),
        header_of(headers, kind, path) is Some,
    ensures
        task_for(headers, scopes, ws, path) matches Some(t) && t.header == header_of(
            headers,
            kind,
            path,
        ),
{
}

/// The headers and the scopes of the configuration can be used.
pub open spec fn can_plan(config: Config, root: Seq<char>, texts: FileTexts) -> bool {
    Headers::load_all(config, root, texts) && config.scopes_build(root, texts)
}

/// The error is the first one that planning gives.
pub open spec fn is_plan_fault(
    config: Config,
    root: Seq<char>,
    texts: FileTexts,
    e: RunError,
) -> bool {
    if !Headers::load_all(config, root, texts) {
        e matches RunError::Header(h) && if !pipeline::opt_header_loads(
            config.kotlin_header(),
            root,
            texts,
        ) {
            h.is_header_fault(config.kotlin_header()->0, root, texts)
        } else if !pipeline::opt_header_loads(config.java_header(), root, texts) {
            h.is_header_fault(config.java_header()->0, root, texts)
        } else {
            h.is_header_fault(config.rust_header()->0, root, texts)
        }
    } else {
        config.is_scopes_fault(root, texts, e)
    }
}

/// Plans a run on these files.
pub fn plan_run(
    config: &Config,
    repo_root: &str,
    texts: &FileTexts,
    files: &Vec<String>,
    forced: bool,
    check: bool,
    year: u32,
) -> (r: Result<RunPlan, RunError>)
    ensures
        match r {
            Ok(p) => {
                &&& can_plan(*config, repo_root@, *texts)
                &&& p.is_for(
                    *config,
                    repo_root@,
                    *texts,
                    chars::views(files@),
                    forced,
                    year as nat,
                )
                &&& p.check == check
                &&& !p.restage
                &&& p.partial_gjf@.len() == 0
            },
            Err(e) => !can_plan(*config, repo_root@, *texts) && is_plan_fault(
                *config,
                repo_root@,
                *texts,
                e,
            ),
        },
{
    let headers = match Headers::build(config, repo_root, texts, year) {
        Ok(h) => h,
        Err(e) => {
            return Err(RunError::Header(e));
        },
    };
    let ws = whitespace::Options::from(&config.whitespace);
    let scopes = match ToolScopes::build(config, repo_root, texts, forced) {
        Ok(s) => s,
        Err(e) => {
            return Err(e);
        },
    };
    let tasks = plan_files(&headers, &scopes, ws, files);
    let ktfmt = absolute_files(repo_root, &take_ktfmt(&scopes, files));
    let gjf = absolute_files(repo_root, &take_gjf(&scopes, files));
    let rustfmt = take_rustfmt(&scopes, files);
    let plan = RunPlan {
        check,
        restage: false,
        tasks,
        ktfmt,
        gjf,
        rustfmt,
        partial_gjf: Vec::new(),
    };
    assert(plan.follows(headers, scopes, ws, repo_root@, chars::views(files@)));
    Ok(plan)
}

/// A header with these settings goes onto the file, unless usable excludes accept
/// it.
pub open spec fn header_reaches(
    header: Option<(Seq<char>, Option<Seq<char>>)>,
    root: Seq<char>,
    texts: FileTexts,
    path: Seq<char>,
) -> bool {
    header matches Some(h) && !(pipeline::excludes_load(h.1, root, texts) && globs::any_accepts(
        pipeline::exclude_patterns(h.1, root, texts)->0,
        path,
    ))
}

impl Config {
    /// The settings of the header for a kind of source.
    pub open spec fn header_for(self, kind: SourceKind) -> Option<(Seq<char>, Option<Seq<char>>)> {
        match kind {
            SourceKind::Kotlin | SourceKind::Kts => self.kotlin_header(),
            SourceKind::Java => self.java_header(),
            SourceKind::Rust => self.rust_header(),
        }
    }

    /// A source of this kind, at this path, is to have a header. Excludes that
    /// cannot be used keep no header off.
    pub open spec fn wants_header(
        self,
        root: Seq<char>,
        texts: FileTexts,
        kind: SourceKind,
        path: Seq<char>,
    ) -> bool {
        header_reaches(self.header_for(kind), root, texts, path)
    }

    /// Some step acts on the file: it is in the scope of a formatter, or a source
    /// that is to have a header or in the scope of a whitespace pass. Where the
    /// scopes cannot be used, no file is known to be out of them.
    pub open spec fn formats(self, root: Seq<char>, texts: FileTexts, path: Seq<char>) -> bool {
        ||| !self.scopes_build(root, texts)
        ||| in_scope(self.ktfmt_scope(root, texts), path)
        ||| in_scope(self.gjf_scope(root, texts), path)
        ||| in_scope(self.rustfmt_scope(root, texts), path)
        ||| crate::license::kind_of_path(path) matches Some(kind) && (self.wants_header(
            root,
            texts,
            kind,
            path,
        ) || ((self.whitespace.strip_trailing || self.whitespace.final_newline) && in_scope(
            self.whitespace_scope(root, texts),
            path,
        )))
    }
}

/// The files on which some step acts, in order.
pub open spec fn formattable(
    config: Config,
    root: Seq<char>,
    texts: FileTexts,
    files: Seq<Seq<char>>,
) -> Seq<Seq<char>>
    decreases files.len(),
{
    if files.len() == 0 {
        Seq::empty()
    } else {
        let rest = formattable(config, root, texts, files.drop_last());
        if config.formats(root, texts, files.last()) {
            rest.push(files.last())
        } else {
            rest
        }
    }
}

/// Each scope takes the files that its patterns select.
proof fn lemma_scopes_say(
    config: Config,
    root: Seq<char>,
    texts: FileTexts,
    s: ToolScopes,
    path: Seq<char>,
)
    requires
        s.are_for(config, root, texts, false),
    ensures
        s.ktfmt_takes(path) == in_scope(config.ktfmt_scope(root, texts), path),
        s.gjf_takes(path) == in_scope(config.gjf_scope(root, texts), path),
        s.rustfmt_takes(path) == in_scope(config.rustfmt_scope(root, texts), path),
        takes(s.whitespace.patterns(), s.forced, path) == in_scope(
            config.whitespace_scope(root, texts),
            path,
        ),
{
}

/// A plan acts on a file exactly where the configuration formats it.
proof fn lemma_formats(
    config: Config,
    root: Seq<char>,
    texts: FileTexts,
    h: Headers,
    s: ToolScopes,
    year: nat,
    path: Seq<char>,
)
    requires
        can_plan(config, root, texts),
        h.are_made_from(config, root, texts, year),
        s.are_for(config, root, texts, false),
    ensures
        ({
            let ws = whitespace::Options {
                strip_trailing: config.whitespace.strip_trailing,
                final_newline: config.whitespace.final_newline,
            };
            config.formats(root, texts, path) == (task_for(h, s, ws, path) is Some || s.ktfmt_takes(
                path,
            ) || s.gjf_takes(path) || s.rustfmt_takes(path))
        }),
{
    lemma_scopes_say(config, root, texts, s, path);
    if let Some(kind) = crate::license::kind_of_path(path) {
        assert(header_of(h, kind, path) is Some == config.wants_header(root, texts, kind, path));
    }
}

/// Files on which no step acts make no difference to a plan.
pub proof fn plans_are_made_of_formattable_files(
    config: Config,
    root: Seq<char>,
    texts: FileTexts,
    h: Headers,
    s: ToolScopes,
    year: nat,
    files: Seq<Seq<char>>,
)
    requires
        can_plan(config, root, texts),
        h.are_made_from(config, root, texts, year),
        s.are_for(config, root, texts, false),
    ensures
        ({
            let ws = whitespace::Options {
                strip_trailing: config.whitespace.strip_trailing,
                final_newline: config.whitespace.final_newline,
            };
            let acted_on = formattable(config, root, texts, files);
            &&& tasks_for(h, s, ws, files) == tasks_for(h, s, ws, acted_on)
            &&& ktfmt_files(s, files) == ktfmt_files(s, acted_on)
            &&& gjf_files(s, files) == gjf_files(s, acted_on)
            &&& rustfmt_files(s, files) == rustfmt_files(s, acted_on)
        }),
    decreases files.len(),
{
    if files.len() > 0 {
        let rest = formattable(config, root, texts, files.drop_last());
        plans_are_made_of_formattable_files(config, root, texts, h, s, year, files.drop_last());
        lemma_formats(config, root, texts, h, s, year, files.last());
        assert(rest.push(files.last()).drop_last() =~= rest);
    }
}

/// Onto which files a header goes, as far as its excludes decide.
enum HeaderReach {
    /// There is no header.
    Nowhere,
    /// Nothing is excluded, or the excludes cannot be used.
    Everywhere,
    Except(globset::GlobSet),
}

impl HeaderReach {
    spec fn covers(self, path: Seq<char>) -> bool {
        match self {
            HeaderReach::Nowhere => false,
            HeaderReach::Everywhere => true,
            HeaderReach::Except(set) => !globs::any_accepts(globs::set_patterns(set), path),
        }
    }

    /// Looks at the excludes of a header, and not at its template.
    fn of(header: &Option<ResolvedHeader>, repo_root: &str, texts: &FileTexts) -> (r: Self)
        ensures
            forall|path: Seq<char>| #[trigger]
                r.covers(path) == header_reaches(
                    crate::config::opt_parts(*header),
                    repo_root@,
                    *texts,
                    path,
                ),
    {
        match header {
            None => HeaderReach::Nowhere,
            Some(h) => match pipeline::load_excludes(&h.excludes, repo_root, texts) {
                Ok(set) => HeaderReach::Except(set),
                Err(_) => HeaderReach::Everywhere,
            },
        }
    }

    fn takes(&self, path: &str) -> (r: bool)
        ensures
            r == self.covers(path@),
    {
        match self {
            HeaderReach::Nowhere => false,
            HeaderReach::Everywhere => true,
            HeaderReach::Except(set) => !globs::is_match(set, path),
        }
    }
}

/// Chooses the files on which some step acts. The templates of headers are not
/// looked at.
pub fn select_formattable(
    config: &Config,
    repo_root: &str,
    texts: &FileTexts,
    files: &Vec<String>,
) -> (r: Vec<String>)
    ensures
        chars::views(r@) == formattable(*config, repo_root@, *texts, chars::views(files@)),
{
    let scopes = match ToolScopes::build(config, repo_root, texts, false) {
        Ok(s) => s,
        Err(_) => {
            proof {
                lemma_all_formattable(*config, repo_root@, *texts, chars::views(files@));
            }
            return text::copy_list(files);
        },
    };
    let kotlin = HeaderReach::of(&config.ktfmt_header(), repo_root, texts);
    let java = HeaderReach::of(&config.gjf_header(), repo_root, texts);
    let rust = HeaderReach::of(&config.rustfmt_header(), repo_root, texts);
    let passes = config.whitespace.strip_trailing || config.whitespace.final_newline;
    let ghost all = chars::views(files@);
    let mut r: Vec<String> = Vec::new();
    let mut i: usize = 0;
    assert(chars::views(r@) =~= formattable(*config, repo_root@, *texts, all.take(0)));
    while i < files.len()
        invariant
            i <= files.len(),
            all == chars::views(files@),
            config.scopes_build(repo_root@, *texts),
            scopes.are_for(*config, repo_root@, *texts, false),
            forall|p: Seq<char>| #[trigger]
                kotlin.covers(p) == header_reaches(
                    config.kotlin_header(),
                    repo_root@,
                    *texts,
                    p,
                ),
            forall|p: Seq<char>| #[trigger]
                java.covers(p) == header_reaches(config.java_header(), repo_root@, *texts, p),
            forall|p: Seq<char>| #[trigger]
                rust.covers(p) == header_reaches(config.rust_header(), repo_root@, *texts, p),
            passes == (config.whitespace.strip_trailing || config.whitespace.final_newline),
            chars::views(r@) == formattable(*config, repo_root@, *texts, all.take(i as int)),
        decreases files.len() - i,
    {
        let ghost before = chars::views(r@);
        let path = &files[i];
        assert(all.take(i + 1).drop_last() =~= all.take(i as int));
        assert(all[i as int] == path@);
        proof {
            lemma_scopes_say(*config, repo_root@, *texts, scopes, path@);
        }
        let as_source = match SourceKind::from_path(path) {
            None => false,
            Some(kind) => {
                let header = match kind {
                    SourceKind::Kotlin | SourceKind::Kts => kotlin.takes(path),
                    SourceKind::Java => java.takes(path),
                    SourceKind::Rust => rust.takes(path),
                };
                header || (passes && scopes.matches_whitespace(path))
            },
        };
        if as_source || scopes.matches_ktfmt(path) || scopes.matches_gjf(path)
            || scopes.matches_rustfmt(path) {
            r.push(path.clone());
            assert(chars::views(r@) =~= before.push(all[i as int]));
        }
        i += 1;
    }
    assert(all.take(i as int) =~= all);
    r
}

/// Where the scopes cannot be used, all files count.
proof fn lemma_all_formattable(
    config: Config,
    root: Seq<char>,
    texts: FileTexts,
    files: Seq<Seq<char>>,
)
    requires
        !config.scopes_build(root, texts),
    ensures
        formattable(config, root, texts, files) == files,
    decreases files.len(),
{
    if files.len() > 0 {
        lemma_all_formattable(config, root, texts, files.drop_last());
        assert(files.drop_last().push(files.last()) =~= files);
    } else {
        assert(files =~= Seq::<Seq<char>>::empty());
    }
}

/// Plans the run of a scope; nothing where it has no candidates. `check` selects
/// a run that writes nothing.
pub fn run_format<G: GitContext>(
    config: &Config,
    git: &G,
    repo_root: &str,
    texts: &FileTexts,
    scope: Scope,
    walked: Vec<String>,
    check: bool,
    year: u32,
) -> (r: Result<Option<RunPlan>, RunError>)
    ensures
        exists|answer: Result<Vec<String>, GitError>| #[trigger]
            answers_scope(git, scope, walked, answer) && match answer {
                Err(e) => r == Err::<Option<RunPlan>, _>(RunError::Git(e)),
                Ok(universe) => match candidates_of(
                    chars::views(universe@),
                    is_forced(scope),
                    *config,
                    repo_root@,
                    *texts,
                ) {
                    None => r matches Err(e) && is_exclude_fault(
                        *config,
                        repo_root@,
                        *texts,
                        e,
                    ),
                    Some(files) => if files.len() == 0 {
                        r matches Ok(None)
                    } else if !can_plan(*config, repo_root@, *texts) {
                        r matches Err(e) && is_plan_fault(*config, repo_root@, *texts, e)
                    } else {
                        r matches Ok(Some(p)) && p.is_for(
                            *config,
                            repo_root@,
                            *texts,
                            files,
                            is_forced(scope),
                            year as nat,
                        ) && p.check == check && !p.restage && p.partial_gjf@.len() == 0
                    },
                },
            },
{
    let forced = match &scope {
        Scope::Explicit { force, .. } => *force,
        _ => false,
    };
    let candidates = match collect_candidates(git, scope, walked, config, repo_root, texts) {
        Ok(c) => c,
        Err(e) => {
            return Err(e);
        },
    };
    assert(chars::views(candidates@).len() == candidates@.len());
    if candidates.len() == 0 {
        return Ok(None);
    }
    match plan_run(config, repo_root, texts, &candidates, forced, check, year) {
        Ok(p) => Ok(Some(p)),
        Err(e) => Err(e),
    }
}

/// The files that are not in the list.
pub open spec fn without(files: Seq<Seq<char>>, list: Seq<Seq<char>>) -> Seq<Seq<char>>
    decreases files.len(),
{
    if files.len() == 0 {
        Seq::empty()
    } else {
        let rest = without(files.drop_last(), list);
        if fspath::holds_path(list, files.last()) {
            rest
        } else {
            rest.push(files.last())
        }
    }
}

fn drop_listed(files: &Vec<String>, list: &Vec<String>) -> (r: Vec<String>)
    ensures
        chars::views(r@) == without(chars::views(files@), chars::views(list@)),
{
    let ghost all = chars::views(files@);
    let mut r: Vec<String> = Vec::new();
    let mut i: usize = 0;
    assert(chars::views(r@) =~= without(all.take(0), chars::views(list@)));
    while i < files.len()
        invariant
            i <= files.len(),
            all == chars::views(files@),
            chars::views(r@) == without(all.take(i as int), chars::views(list@)),
        decreases files.len() - i,
    {
        let ghost before = chars::views(r@);
        assert(all.take(i + 1).drop_last() =~= all.take(i as int));
        assert(all[i as int] == files@[i as int]@);
        if !fspath::holds(list, &files[i]) {
            r.push(files[i].clone());
            assert(chars::views(r@) =~= before.push(all[i as int]));
        }
        i += 1;
    }
    assert(all.take(i as int) =~= all);
    r
}

/// The files among those staged in part that can be formatted in the index
/// alone: Java files that google-java-format takes, where it is configured.
pub open spec fn is_partial_selection(
    config: Config,
    root: Seq<char>,
    texts: FileTexts,
    files: Seq<Seq<char>>,
    selected: Seq<Seq<char>>,
) -> bool {
    match config.gjf {
        None => selected.len() == 0,
        Some(_) => exists|s: ToolScopes| #[trigger]
            s.are_for(config, root, texts, false) && selected == partial_gjf_files(s, files),
    }
}

/// Chooses the files that can be formatted in the index alone.
pub fn partial_gjf_candidates(
    config: &Config,
    repo_root: &str,
    texts: &FileTexts,
    files: &Vec<String>,
) -> (r: Result<Vec<String>, RunError>)
    ensures
        match r {
            Ok(v) => (config.gjf is Some ==> config.scopes_build(repo_root@, *texts))
                && is_partial_selection(
                *config,
                repo_root@,
                *texts,
                chars::views(files@),
                chars::views(v@),
            ),
            Err(e) => config.gjf is Some && !config.scopes_build(repo_root@, *texts)
                && config.is_scopes_fault(repo_root@, *texts, e),
        },
{
    if config.gjf.is_none() {
        return Ok(Vec::new());
    }
    match ToolScopes::build(config, repo_root, texts, false) {
        Ok(scopes) => {
            let v = take_partial_gjf(&scopes, files);
            assert(scopes.are_for(*config, repo_root@, *texts, false));
            Ok(v)
        },
        Err(e) => Err(e),
    }
}

/// What the hook does with its candidates: the files that are formatted and
/// staged again, and those that are formatted in the index alone.
#[derive(Debug)]
pub struct HookFiles {
    pub normal: Vec<String>,
    pub partial_gjf: Vec<String>,
}

/// What becomes of the hook's candidates.
pub open spec fn is_hook_decision(
    config: Config,
    root: Seq<char>,
    texts: FileTexts,
    candidates: Seq<Seq<char>>,
    staging: StagingCheck,
    allow_partial_gjf: bool,
    r: Result<HookFiles, RunError>,
) -> bool {
    match staging {
        StagingCheck::Safe => r matches Ok(h) && chars::views(h.normal@) == candidates
            && h.partial_gjf@.len() == 0,
        StagingCheck::PartialStage { files: conflicts } => if !allow_partial_gjf {
            r matches Err(RunError::PartialStaging { files, experimental }) && files == conflicts
                && !experimental
        } else if config.gjf is Some && !config.scopes_build(root, texts) {
            r matches Err(e) && config.is_scopes_fault(root, texts, e)
        } else {
            exists|handled: Seq<Seq<char>>| #[trigger]
                is_partial_selection(config, root, texts, chars::views(conflicts@), handled) && if without(
                    chars::views(conflicts@),
                    handled,
                ).len() == 0 {
                    r matches Ok(h) && chars::views(h.normal@) == without(candidates, handled)
                        && chars::views(h.partial_gjf@) == handled
                } else {
                    r matches Err(RunError::PartialStaging { files, experimental })
                        && chars::views(files@) == without(chars::views(conflicts@), handled)
                        && experimental
                }
        },
    }
}

/// Decides what becomes of the hook's candidates, the staged files that it would
/// format. Those that are staged in part stop it, unless all of them can be
/// formatted in the index alone and that is allowed.
pub fn decide_hook(
    config: &Config,
    repo_root: &str,
    texts: &FileTexts,
    candidates: &Vec<String>,
    staging: StagingCheck,
    allow_partial_gjf: bool,
) -> (r: Result<HookFiles, RunError>)
    ensures
        is_hook_decision(
            *config,
            repo_root@,
            *texts,
            chars::views(candidates@),
            staging,
            allow_partial_gjf,
            r,
        ),
{
    match staging {
        StagingCheck::Safe => Ok(
            HookFiles { normal: text::copy_list(candidates), partial_gjf: Vec::new() },
        ),
        StagingCheck::PartialStage { files } => {
            if !allow_partial_gjf {
                return Err(RunError::PartialStaging { files, experimental: false });
            }
            let handled = match partial_gjf_candidates(config, repo_root, texts, &files) {
                Ok(v) => v,
                Err(e) => {
                    return Err(e);
                },
            };
            let unhandled = drop_listed(&files, &handled);
            assert(chars::views(unhandled@).len() == unhandled@.len());
            assert(is_partial_selection(
                *config,
                repo_root@,
                *texts,
                chars::views(files@),
                chars::views(handled@),
            ));
            if unhandled.len() == 0 {
                let normal = drop_listed(candidates, &handled);
                Ok(HookFiles { normal, partial_gjf: handled })
            } else {
                Err(RunError::PartialStaging { files: unhandled, experimental: true })
            }
        },
    }
}

/// The plan of the hook for these files.
pub open spec fn is_hook_plan(
    config: Config,
    root: Seq<char>,
    texts: FileTexts,
    files: HookFiles,
    year: nat,
    r: Result<Option<RunPlan>, RunError>,
) -> bool {
    if !can_plan(config, root, texts) {
        r matches Err(e) && is_plan_fault(config, root, texts, e)
    } else {
        r matches Ok(Some(p)) && p.is_for(
            config,
            root,
            texts,
            chars::views(files.normal@),
            false,
            year,
        ) && p.check == (config.hook.mode == HookMode::Check) && p.restage == (config.hook.mode
            != HookMode::Check) && p.partial_gjf == files.partial_gjf
    }
}

/// What the hook plans, given its candidates and what the staging check found.
/// As a check it formats nothing, so that staging in part does not matter.
pub open spec fn is_hook_outcome(
    config: Config,
    root: Seq<char>,
    texts: FileTexts,
    candidates: Seq<Seq<char>>,
    staging: StagingCheck,
    allow_partial_gjf: bool,
    year: nat,
    r: Result<Option<RunPlan>, RunError>,
) -> bool {
    exists|d: Result<HookFiles, RunError>| #[trigger]
        is_hook_decision(config, root, texts, candidates, staging, allow_partial_gjf, d)
            && match d {
            Ok(files) => is_hook_plan(config, root, texts, files, year, r),
            Err(e) => r == Err::<Option<RunPlan>, _>(e),
        }
}

fn plan_hook(
    config: &Config,
    repo_root: &str,
    texts: &FileTexts,
    candidates: &Vec<String>,
    staging: StagingCheck,
    allow_partial_gjf: bool,
    year: u32,
) -> (r: Result<Option<RunPlan>, RunError>)
    ensures
        is_hook_outcome(
            *config,
            repo_root@,
            *texts,
            chars::views(candidates@),
            staging,
            allow_partial_gjf,
            year as nat,
            r,
        ),
{
    let check = match config.hook.mode {
        HookMode::Check => true,
        HookMode::Format => false,
    };
    let decision = decide_hook(config, repo_root, texts, candidates, staging, allow_partial_gjf);
    let ghost d = decision;
    assert(is_hook_decision(
        *config,
        repo_root@,
        *texts,
        chars::views(candidates@),
        staging,
        allow_partial_gjf,
        d,
    ));
    match decision {
        Err(e) => Err(e),
        Ok(files) => {
            let HookFiles { normal, partial_gjf } = files;
            match plan_run(config, repo_root, texts, &normal, false, check, year) {
                Err(e) => Err(e),
                Ok(p) => {
                    let RunPlan { tasks, ktfmt, gjf, rustfmt, .. } = p;
                    let plan = RunPlan {
                        check,
                        restage: !check,
                        tasks,
                        ktfmt,
                        gjf,
                        rustfmt,
                        partial_gjf,
                    };
                    proof {
                        let ws = whitespace::Options {
                            strip_trailing: config.whitespace.strip_trailing,
                            final_newline: config.whitespace.final_newline,
                        };
                        let (h, s) = choose|h: Headers, s: ToolScopes|
                            h.are_made_from(*config, repo_root@, *texts, year as nat) && s.are_for(
                                *config,
                                repo_root@,
                                *texts,
                                false,
                            ) && #[trigger] p.follows(
                                h,
                                s,
                                ws,
                                repo_root@,
                                chars::views(normal@),
                            );
                        assert(plan.follows(h, s, ws, repo_root@, chars::views(normal@)));
                    }
                    Ok(Some(plan))
                },
            }
        },
    }
}

/// What is found of candidates that are modified beyond what is staged. Without
/// candidates git is not asked.
pub open spec fn answers_staging<G: GitContext>(
    git: &G,
    candidates: Seq<Seq<char>>,
    answer: Result<StagingCheck, GitError>,
) -> bool {
    if candidates.len() == 0 {
        answer == Ok::<StagingCheck, GitError>(StagingCheck::Safe)
    } else {
        is_staging_answer(git, candidates, answer)
    }
}

/// What follows for the candidates from an answer of git.
pub open spec fn is_staging_answer<G: GitContext>(
    git: &G,
    candidates: Seq<Seq<char>>,
    answer: Result<StagingCheck, GitError>,
) -> bool {
    exists|unstaged: Result<Vec<String>, GitError>| #[trigger]
        call_ensures(G::unstaged_modified_files, (git,), unstaged) && match unstaged {
            Ok(files) => answer matches Ok(check) && hook::is_staging_check(
                candidates,
                chars::views(files@),
                check,
            ),
            Err(e) => answer matches Err(f) && f.message@ == "query unstaged-modified files: "@
                + e.message@,
        }
}

/// What the hook plans on the staged files that it would format.
pub open spec fn is_hook_run<G: GitContext>(
    config: Config,
    git: &G,
    root: Seq<char>,
    texts: FileTexts,
    files: Seq<Seq<char>>,
    allow_partial_gjf: bool,
    year: nat,
    r: Result<Option<RunPlan>, RunError>,
) -> bool {
    if config.hook.mode == HookMode::Check {
        is_hook_outcome(
            config,
            root,
            texts,
            files,
            StagingCheck::Safe,
            allow_partial_gjf,
            year,
            r,
        )
    } else {
        exists|staging: Result<StagingCheck, GitError>| #[trigger]
            answers_staging(git, files, staging) && match staging {
                Err(e) => r == Err::<Option<RunPlan>, _>(RunError::Git(e)),
                Ok(check) => is_hook_outcome(
                    config,
                    root,
                    texts,
                    files,
                    check,
                    allow_partial_gjf,
                    year,
                    r,
                ),
            }
    }
}

/// Plans the run of the pre-commit hook on the staged files that it would format;
/// nothing where no file is staged that is not excluded. Unless it only checks, it
/// stops where one of them is staged in part, before anything else that is wrong
/// with headers or scopes is told. Other staged files, in part or not, do not
/// matter.
pub fn run_hook<G: GitContext>(
    config: &Config,
    git: &G,
    repo_root: &str,
    texts: &FileTexts,
    year: u32,
    allow_partial_gjf: bool,
) -> (r: Result<Option<RunPlan>, RunError>)
    ensures
        exists|answer: Result<Vec<String>, GitError>| #[trigger]
            call_ensures(G::staged_files, (git,), answer) && match answer {
                Err(e) => r == Err::<Option<RunPlan>, _>(RunError::Git(e)),
                Ok(universe) => match candidates_of(
                    chars::views(universe@),
                    false,
                    *config,
                    repo_root@,
                    *texts,
                ) {
                    None => r matches Err(e) && is_exclude_fault(
                        *config,
                        repo_root@,
                        *texts,
                        e,
                    ),
                    Some(files) => if files.len() == 0 {
                        r matches Ok(None)
                    } else {
                        is_hook_run(
                            *config,
                            git,
                            repo_root@,
                            *texts,
                            formattable(*config, repo_root@, *texts, files),
                            allow_partial_gjf,
                            year as nat,
                            r,
                        )
                    },
                },
            },
{
    let candidates = match collect_candidates(
        git,
        Scope::Staged,
        Vec::new(),
        config,
        repo_root,
        texts,
    ) {
        Ok(c) => c,
        Err(e) => {
            return Err(e);
        },
    };
    assert(chars::views(candidates@).len() == candidates@.len());
    if candidates.len() == 0 {
        return Ok(None);
    }
    let candidates = select_formattable(config, repo_root, texts, &candidates);
    assert(chars::views(candidates@).len() == candidates@.len());
    let staging = match config.hook.mode {
        HookMode::Check => StagingCheck::Safe,
        HookMode::Format => {
            let checked = hook::check_partial_staging(git, &candidates);
            assert(answers_staging(git, chars::views(candidates@), checked));
            match checked {
                Ok(s) => s,
                Err(e) => {
                    return Err(RunError::Git(e));
                },
            }
        },
    };
    plan_hook(config, repo_root, texts, &candidates, staging, allow_partial_gjf, year)
}

/// The stages of a run, in order.
#[derive(Debug, Clone, Copy, PartialEq, Eq, Structural)]
pub enum Stage {
    /// The steps that need no other program.
    Pipeline,
    Ktfmt,
    Gjf,
    Rustfmt,
    /// google-java-format on the index alone.
    PartialGjf,
    /// What was changed is staged again.
    Restage,
    Finished,
}

impl Stage {
    /// Place of the stage in the order.
    pub open spec fn place(self) -> int {
        match self {
            Stage::Pipeline => 0,
            Stage::Ktfmt => 1,
            Stage::Gjf => 2,
            Stage::Rustfmt => 3,
            Stage::PartialGjf => 4,
            Stage::Restage => 5,
            Stage::Finished => 6,
        }
    }
}

impl RunPlan {
    /// The stage has something to do in this plan.
    pub open spec fn has_work(self, stage: Stage) -> bool {
        match stage {
            Stage::Pipeline => true,
            Stage::Ktfmt => self.ktfmt@.len() > 0,
            Stage::Gjf => self.gjf@.len() > 0,
            Stage::Rustfmt => self.rustfmt@.len() > 0,
            Stage::PartialGjf => !self.check && self.partial_gjf@.len() > 0,
            Stage::Restage => !self.check && self.restage,
            Stage::Finished => true,
        }
    }

    /// The stage after this one: the first later one that has something to do.
    pub fn next_stage(&self, stage: Stage) -> (r: Stage)
        ensures
            self.has_work(r),
            stage == Stage::Finished ==> r == Stage::Finished,
            stage != Stage::Finished ==> stage.place() < r.place(),
            forall|s: Stage|
                stage.place() < s.place() && #[trigger] self.has_work(s) ==> r.place() <= s.place(),
    {
        match stage {
            Stage::Pipeline => {
                if self.ktfmt.len() > 0 {
                    return Stage::Ktfmt;
                }
                self.next_stage_after_ktfmt()
            },
            Stage::Ktfmt => self.next_stage_after_ktfmt(),
            Stage::Gjf => self.next_stage_after_gjf(),
            Stage::Rustfmt => self.next_stage_after_rustfmt(),
            Stage::PartialGjf => {
                if !self.check && self.restage {
                    Stage::Restage
                } else {
                    Stage::Finished
                }
            },
            Stage::Restage => Stage::Finished,
            Stage::Finished => Stage::Finished,
        }
    }

    fn next_stage_after_ktfmt(&self) -> (r: Stage)
        ensures
            self.has_work(r),
            r.place() > 1,
            forall|s: Stage| 1 < s.place() && #[trigger] self.has_work(s) ==> r.place() <= s.place(),
    {
        if self.gjf.len() > 0 {
            return Stage::Gjf;
        }
        self.next_stage_after_gjf()
    }

    fn next_stage_after_gjf(&self) -> (r: Stage)
        ensures
            self.has_work(r),
            r.place() > 2,
            forall|s: Stage| 2 < s.place() && #[trigger] self.has_work(s) ==> r.place() <= s.place(),
    {
        if self.rustfmt.len() > 0 {
            return Stage::Rustfmt;
        }
        self.next_stage_after_rustfmt()
    }

    fn next_stage_after_rustfmt(&self) -> (r: Stage)
        ensures
            self.has_work(r),
            r.place() > 3,
            forall|s: Stage| 3 < s.place() && #[trigger] self.has_work(s) ==> r.place() <= s.place(),
    {
        if !self.check && self.partial_gjf.len() > 0 {
            return Stage::PartialGjf;
        }
        if !self.check && self.restage {
            return Stage::Restage;
        }
        Stage::Finished
    }
}

/// A check neither touches the index nor stages anything.
pub proof fn checks_leave_the_index_alone(plan: RunPlan)
    requires
        plan.check,
    ensures
        !plan.has_work(Stage::PartialGjf),
        !plan.has_work(Stage::Restage),
{
}

proof fn lemma_formattable_contains(
    config: Config,
    root: Seq<char>,
    texts: FileTexts,
    files: Seq<Seq<char>>,
    path: Seq<char>,
)
    ensures
        formattable(config, root, texts, files).contains(path) == (files.contains(path)
            && config.formats(root, texts, path)),
    decreases files.len(),
{
    if files.len() > 0 {
        let rest = formattable(config, root, texts, files.drop_last());
        lemma_formattable_contains(config, root, texts, files.drop_last(), path);
        lemma_contains_last(files, path);
        lemma_contains_push(rest, files.last(), path);
    }
}

/// Staging in part stands in the way exactly where it is that of a staged file
/// that the hook would format, and only such files are named.
pub proof fn only_formatted_files_stop_the_hook(
    config: Config,
    root: Seq<char>,
    texts: FileTexts,
    staged: Seq<Seq<char>>,
    unstaged: Seq<Seq<char>>,
    check: StagingCheck,
)
    requires
        hook::is_staging_check(formattable(config, root, texts, staged), unstaged, check),
    ensures
        check is Safe <==> forall|p: Seq<char>| #[trigger]
            staged.contains(p) && config.formats(root, texts, p) ==> !fspath::holds_path(
                unstaged,
                p,
            ),
        check matches StagingCheck::PartialStage { files } ==> forall|p: Seq<char>| #[trigger]
            chars::views(files@).contains(p) ==> staged.contains(p) && config.formats(
                root,
                texts,
                p,
            ) && fspath::holds_path(unstaged, p),
{
    let files = formattable(config, root, texts, staged);
    hook::safe_iff_no_partial_file(files, unstaged, check);
    assert forall|p: Seq<char>| #[trigger] files.contains(p) == (staged.contains(p)
        && config.formats(root, texts, p)) by {
        lemma_formattable_contains(config, root, texts, staged, p);
    }
    if check is Safe {
        assert forall|p: Seq<char>| #[trigger]
            staged.contains(p) && config.formats(root, texts, p) implies !fspath::holds_path(
            unstaged,
            p,
        ) by {
            assert(files.contains(p));
            let i = choose|i: int| 0 <= i < files.len() && files[i] == p;
            assert(!fspath::holds_path(unstaged, files[i]));
        }
    } else {
        let i = choose|i: int|
            0 <= i < files.len() && fspath::holds_path(unstaged, #[trigger] files[i]);
        assert(files.contains(files[i]));
        assert(staged.contains(files[i]));
    }
}

/// Where the hook formats, no file that is staged in part is formatted in the
/// working tree.
pub proof fn hook_spares_partial_files(
    config: Config,
    root: Seq<char>,
    texts: FileTexts,
    candidates: Seq<Seq<char>>,
    conflicts: Vec<String>,
    allow_partial_gjf: bool,
    h: HookFiles,
    i: int,
)
    requires
        is_hook_decision(
            config,
            root,
            texts,
            candidates,
            StagingCheck::PartialStage { files: conflicts },
            allow_partial_gjf,
            Ok(h),
        ),
        0 <= i < conflicts@.len(),
    ensures
        allow_partial_gjf,
        fspath::holds_path(chars::views(h.partial_gjf@), conflicts@[i]@),
        !fspath::holds_path(chars::views(h.normal@), conflicts@[i]@),
{
    let all = chars::views(conflicts@);
    let handled = chars::views(h.partial_gjf@);
    assert(all[i] == conflicts@[i]@);
    lemma_without_empty(all, handled, i);
    lemma_without_holds(candidates, handled, conflicts@[i]@);
}

proof fn lemma_without_empty(files: Seq<Seq<char>>, list: Seq<Seq<char>>, i: int)
    requires
        without(files, list).len() == 0,
        0 <= i < files.len(),
    ensures
        fspath::holds_path(list, files[i]),
    decreases files.len(),
{
    if i < files.len() - 1 {
        lemma_without_empty(files.drop_last(), list, i);
    }
}

proof fn lemma_without_holds(files: Seq<Seq<char>>, list: Seq<Seq<char>>, p: Seq<char>)
    requires
        fspath::holds_path(list, p),
    ensures
        !fspath::holds_path(without(files, list), p),
    decreases files.len(),
{
    let r = without(files, list);
    if files.len() > 0 {
        let rest = without(files.drop_last(), list);
        lemma_without_holds(files.drop_last(), list, p);
        if fspath::holds_path(r, p) {
            let i = choose|i: int|
                0 <= i < r.len() && fspath::parts(#[trigger] r[i]) == fspath::parts(p);
            if i < rest.len() {
                assert(fspath::parts(rest[i]) == fspath::parts(p));
            } else {
                let k = choose|k: int|
                    0 <= k < list.len() && fspath::parts(#[trigger] list[k]) == fspath::parts(p);
                assert(fspath::parts(list[k]) == fspath::parts(files.last()));
            }
        }
    }
}

/// A file relative to the repository root, or as it is where it is not within.
pub open spec fn relative_or_same(path: Seq<char>, root: Seq<char>) -> Seq<char> {
    match fspath::relative(path, root) {
        Some(rel) => rel,
        None => path,
    }
}

/// Each file relative to the repository root.
pub open spec fn relatives(paths: Seq<Seq<char>>, root: Seq<char>) -> Seq<Seq<char>> {
    paths.map_values(|p: Seq<char>| relative_or_same(p, root))
}

/// Adds what a formatter reported in check mode.
pub fn merge_jvm_check_run(outcome: &mut FormatOutcome, repo_root: &str, run: CheckRun)
    ensures
        final(outcome).check_failed == (old(outcome).check_failed || !run.success),
        final(outcome).changed@ == fspath::inserted_all(
            old(outcome).changed@,
            relatives(chars::views(run.paths@), repo_root@),
        ),
        final(outcome).parse_errors@ == formatters::merged_text(
            old(outcome).parse_errors@,
            run.stderr@,
        ),
{
    if !run.success {
        outcome.check_failed = true;
    }
    let ghost all = chars::views(run.paths@);
    let ghost start = outcome.changed@;
    let mut i: usize = 0;
    assert(relatives(all.take(0), repo_root@) =~= Seq::empty());
    while i < run.paths.len()
        invariant
            i <= run.paths.len(),
            all == chars::views(run.paths@),
            start == old(outcome).changed@,
            outcome.check_failed == (old(outcome).check_failed || !run.success),
            outcome.parse_errors == old(outcome).parse_errors,
            outcome.changed@ == fspath::inserted_all(
                start,
                relatives(all.take(i as int), repo_root@),
            ),
        decreases run.paths.len() - i,
    {
        assert(all[i as int] == run.paths@[i as int]@);
        let rel = match fspath::strip_prefix(&run.paths[i], repo_root) {
            Some(rel) => rel,
            None => run.paths[i].clone(),
        };
        proof {
            let more = relatives(all.take(i + 1), repo_root@);
            assert(more.drop_last() =~= relatives(all.take(i as int), repo_root@));
            assert(more.last() == rel@);
        }
        outcome.changed.insert(&rel);
        i += 1;
    }
    assert(all.take(i as int) =~= all);
    formatters::merge_text(&mut outcome.parse_errors, &run.stderr);
}

/// A file and what it held before a formatter ran.
#[derive(Debug, PartialEq, Eq)]
pub struct FileSnapshot {
    pub path: String,
    pub content: Vec<u8>,
}

/// The files that hold something else after a formatter ran, relative to the
/// repository root; nothing where one of them is not within it.
pub open spec fn modified(
    before: Seq<FileSnapshot>,
    after: Seq<Vec<u8>>,
    root: Seq<char>,
) -> Option<Seq<Seq<char>>>
    decreases before.len(),
{
    if before.len() == 0 {
        Some(Seq::empty())
    } else {
        let n = before.len() - 1;
        match modified(before.drop_last(), after, root) {
            None => None,
            Some(rest) => if before[n].content@ == after[n]@ {
                Some(rest)
            } else {
                match fspath::relative(before[n].path@, root) {
                    Some(rel) => Some(rest.push(rel)),
                    None => None,
                }
            },
        }
    }
}

proof fn lemma_modified_none(before: Seq<FileSnapshot>, after: Seq<Vec<u8>>, root: Seq<char>, i: int)
    requires
        0 <= i <= before.len(),
        modified(before.take(i), after, root) is None,
    ensures
        modified(before, after, root) is None,
    decreases before.len() - i,
{
    if i < before.len() {
        assert(before.take(i + 1).drop_last() =~= before.take(i));
        lemma_modified_none(before, after, root, i + 1);
    } else {
        assert(before.take(i) =~= before);
    }
}

/// Adds the files that hold something else after a formatter ran. The error
/// names the first of them that is not within the repository; those before it
/// are added.
pub fn merge_format_changes(
    outcome: &mut FormatOutcome,
    repo_root: &str,
    before: &Vec<FileSnapshot>,
    after: &Vec<Vec<u8>>,
) -> (r: Result<(), ToolError>)
    requires
        before@.len() == after@.len(),
    ensures
        final(outcome).check_failed == old(outcome).check_failed,
        final(outcome).parse_errors == old(outcome).parse_errors,
        match modified(before@, after@, repo_root@) {
            Some(files) => r is Ok && final(outcome).changed@ == fspath::inserted_all(
                old(outcome).changed@,
                files,
            ),
            None => r matches Err(e) && exists|i: int|
                0 <= i < before@.len() && (#[trigger] before@[i]).content@ != after@[i]@
                    && !fspath::within(before@[i].path@, repo_root@) && e.message@
                    == "strip repo root from "@ + before@[i].path@ && (modified(
                    before@.take(i),
                    after@,
                    repo_root@,
                ) matches Some(files) && final(outcome).changed@ == fspath::inserted_all(
                    old(outcome).changed@,
                    files,
                )),
        },
{
    let ghost start = outcome.changed@;
    let mut i: usize = 0;
    assert(before@.take(0) =~= Seq::empty());
    let ghost mut files: Seq<Seq<char>> = Seq::empty();
    while i < before.len()
        invariant
            i <= before.len() == after.len(),
            start == old(outcome).changed@,
            outcome.check_failed == old(outcome).check_failed,
            outcome.parse_errors == old(outcome).parse_errors,
            modified(before@.take(i as int), after@, repo_root@) == Some(files),
            outcome.changed@ == fspath::inserted_all(start, files),
        decreases before.len() - i,
    {
        assert(before@.take(i + 1).drop_last() =~= before@.take(i as int));
        if !text::same_bytes(&before[i].content, &after[i]) {
            match fspath::strip_prefix(&before[i].path, repo_root) {
                Some(rel) => {
                    outcome.changed.insert(&rel);
                    proof {
                        assert(files.push(rel@).drop_last() =~= files);
                        files = files.push(rel@);
                    }
                },
                None => {
                    proof {
                        lemma_modified_none(before@, after@, repo_root@, i + 1);
                    }
                    return Err(
                        ToolError {
                            message: text::cat2("strip repo root from ", &before[i].path),
                        },
                    );
                },
            }
        }
        i += 1;
    }
    assert(before@.take(i as int) =~= before@);
    Ok(())
}

/// The arguments of cargo that format files.
pub fn cargo_fmt_args(check: bool, files: &Vec<String>) -> (r: Vec<String>)
    ensures
        chars::views(r@) == (if check {
            seq!["fmt"@, "--check"@, "--"@]
        } else {
            seq!["fmt"@, "--"@]
        }) + chars::views(files@),
{
    let mut r = if check {
        let v = text::list(vec!["fmt", "--check", "--"]);
        assert(chars::views(v@) =~= seq!["fmt"@, "--check"@, "--"@]);
        v
    } else {
        let v = text::list(vec!["fmt", "--"]);
        assert(chars::views(v@) =~= seq!["fmt"@, "--"@]);
        v
    };
    text::append(&mut r, files);
    r
}

/// Adds what rustfmt reported of a file in check mode: an exit code other than
/// zero means that the file needs formatting.
pub fn merge_rustfmt_check(outcome: &mut FormatOutcome, path: &str, output: &ToolOutput)
    ensures
        output.success ==> *final(outcome) == *old(outcome),
        !output.success ==> {
            &&& final(outcome).check_failed
            &&& final(outcome).changed@ == fspath::inserted(old(outcome).changed@, path@)
            &&& final(outcome).parse_errors@ == formatters::merged_text(
                old(outcome).parse_errors@,
                chars::trim(output.stderr@),
            )
        },
{
    if !output.success {
        outcome.check_failed = true;
        outcome.changed.insert(path);
        append_rustfmt_stderr(outcome, &output.stderr);
    }
}

fn append_rustfmt_stderr(outcome: &mut FormatOutcome, stderr: &str)
    ensures
        final(outcome).check_failed == old(outcome).check_failed,
        final(outcome).changed == old(outcome).changed,
        final(outcome).parse_errors@ == formatters::merged_text(
            old(outcome).parse_errors@,
            chars::trim(stderr@),
        ),
{
    let trimmed = text::trim(stderr);
    formatters::merge_text(&mut outcome.parse_errors, &trimmed);
}

/// What rustfmt ended with where it formats: a failure is an error.
pub fn interpret_rustfmt(output: &ToolOutput) -> (r: Result<(), ToolError>)
    ensures
        output.success ==> r is Ok,
        !output.success ==> (r matches Err(e) && e.message@ == formatters::failure_text(
            "cargo fmt"@,
            output.code,
            formatters::details_of(output.stdout@, output.stderr@),
        )),
{
    if output.success {
        Ok(())
    } else {
        Err(formatters::formatter_failure("cargo fmt", output))
    }
}

/// The new-file part of the header of a hunk: the first word that begins with
/// `+`, without it.
pub open spec fn added_part(words: Seq<Seq<char>>) -> Option<Seq<char>>
    decreases words.len(),
{
    if words.len() == 0 {
        None
    } else if words[0].len() > 0 && words[0][0] == '+' {
        Some(words[0].skip(1))
    } else {
        added_part(words.skip(1))
    }
}

/// First line and number of lines that a new-file part gives; one line where it
/// gives no number.
pub open spec fn start_and_count(part: Seq<char>) -> Option<(nat, nat)> {
    let max = usize::MAX as nat;
    let (start, count) = match chars::find(part, ","@) {
        Some(i) => (part.take(i), Some(part.skip(i + 1))),
        None => (part, None),
    };
    match chars::parse(start, max) {
        None => None,
        Some(s) => Some(
            (
                s,
                match count {
                    Some(c) => match chars::parse(c, max) {
                        Some(n) => n,
                        None => 1,
                    },
                    None => 1,
                },
            ),
        ),
    }
}

/// The lines that a hunk adds, first and last; none where the line is no header
/// of a hunk, the hunk adds nothing, or its last line has no number that fits.
pub open spec fn added_lines(line: Seq<char>) -> Option<(nat, nat)> {
    if !chars::starts_with(line, "@@"@) {
        None
    } else {
        match added_part(chars::words(line)) {
            None => None,
            Some(part) => match start_and_count(part) {
                None => None,
                Some((start, count)) => if count > 0 && start + count - 1 <= usize::MAX {
                    Some((start, (start + count - 1) as nat))
                } else {
                    None
                },
            },
        }
    }
}

/// The lines that a diff adds, hunk by hunk.
pub open spec fn all_added_lines(lines: Seq<Seq<char>>) -> Seq<(nat, nat)>
    decreases lines.len(),
{
    if lines.len() == 0 {
        Seq::empty()
    } else {
        let rest = all_added_lines(lines.drop_last());
        match added_lines(lines.last()) {
            Some(range) => rest.push(range),
            None => rest,
        }
    }
}

/// Ranges as numbers.
pub open spec fn range_views(v: Seq<(usize, usize)>) -> Seq<(nat, nat)> {
    v.map_values(|r: (usize, usize)| (r.0 as nat, r.1 as nat))
}

fn find_added_part(words: &Vec<String>) -> (r: Option<String>)
    ensures
        chars::opt_view(r) == added_part(chars::views(words@)),
{
    let ghost all = chars::views(words@);
    let mut i: usize = 0;
    assert(all.skip(0) =~= all);
    while i < words.len()
        invariant
            i <= words.len(),
            all == chars::views(words@),
            added_part(all) == added_part(all.skip(i as int)),
        decreases words.len() - i,
    {
        assert(all.skip(i as int)[0] == words@[i as int]@);
        assert(all.skip(i as int).skip(1) =~= all.skip(i + 1));
        let v = text::chars_of(&words[i]);
        if v.len() > 0 && v[0] == '+' {
            let r = text::slice(&v, 1, v.len());
            assert(r@ =~= words@[i as int]@.skip(1));
            return Some(r);
        }
        i += 1;
    }
    None
}

fn parse_usize(s: &str) -> (r: Option<usize>)
    ensures
        match r {
            Some(n) => chars::parse(s@, usize::MAX as nat) == Some(n as nat),
            None => chars::parse(s@, usize::MAX as nat) is None,
        },
{
    match text::parse(s, usize::MAX as u64) {
        Some(n) => Some(n as usize),
        None => None,
    }
}

fn parse_start_and_count(part: &str) -> (r: Option<(usize, usize)>)
    ensures
        match r {
            Some((s, n)) => start_and_count(part@) == Some((s as nat, n as nat)),
            None => start_and_count(part@) is None,
        },
{
    proof {
        reveal_strlit(",");
    }
    let v = text::chars_of(part);
    match text::find(part, ",") {
        Some(i) => {
            let first = text::slice(&v, 0, i);
            let second = text::slice(&v, i + 1, v.len());
            assert(first@ =~= part@.take(i as int));
            assert(second@ =~= part@.skip(i + 1));
            match parse_usize(&first) {
                None => None,
                Some(s) => match parse_usize(&second) {
                    Some(n) => Some((s, n)),
                    None => Some((s, 1)),
                },
            }
        },
        None => match parse_usize(part) {
            None => None,
            Some(s) => Some((s, 1)),
        },
    }
}

/// The lines that a diff adds, first and last of each hunk, counted from one.
pub fn parse_added_line_ranges(diff: &str) -> (r: Vec<(usize, usize)>)
    ensures
        range_views(r@) == all_added_lines(chars::lines(diff@)),
{
    let lines = text::lines(diff);
    let ghost all = chars::lines(diff@);
    let mut r: Vec<(usize, usize)> = Vec::new();
    let mut i: usize = 0;
    assert(range_views(r@) =~= all_added_lines(all.take(0)));
    while i < lines.len()
        invariant
            i <= lines.len(),
            all == chars::views(lines@),
            range_views(r@) == all_added_lines(all.take(i as int)),
        decreases lines.len() - i,
    {
        let ghost before = range_views(r@);
        assert(all.take(i + 1).drop_last() =~= all.take(i as int));
        assert(all[i as int] == lines@[i as int]@);
        if text::starts_with(&lines[i], "@@") {
            if let Some(part) = find_added_part(&text::words(&lines[i])) {
                if let Some((start, count)) = parse_start_and_count(&part) {
                    if count > 0 && start <= usize::MAX - (count - 1) {
                        let end: usize = start + (count - 1);
                        r.push((start, end));
                        assert(range_views(r@) =~= before.push((start as nat, end as nat)));
                    }
                }
            }
        }
        i += 1;
    }
    assert(all.take(i as int) =~= all);
    r
}

/// Each range that a diff adds is not empty.
pub proof fn added_ranges_are_not_empty(lines: Seq<Seq<char>>, k: int)
    requires
        0 <= k < all_added_lines(lines).len(),
    ensures
        all_added_lines(lines)[k].0 <= all_added_lines(lines)[k].1,
    decreases lines.len(),
{
    let rest = all_added_lines(lines.drop_last());
    if k < rest.len() {
        added_ranges_are_not_empty(lines.drop_last(), k);
    }
}

/// The arguments that restrict google-java-format to lines.
pub open spec fn line_options(ranges: Seq<(nat, nat)>) -> Seq<Seq<char>>
    decreases ranges.len(),
{
    if ranges.len() == 0 {
        Seq::empty()
    } else {
        line_options(ranges.drop_last()) + seq![
            "--lines"@,
            chars::decimal(ranges.last().0) + ":"@ + chars::decimal(ranges.last().1),
        ]
    }
}

/// The arguments of google-java-format that format lines of a file; none where
/// there are no lines.
pub fn partial_gjf_args(style: GjfStyle, ranges: &Vec<(usize, usize)>, file: &str) -> (r: Option<
    Vec<String>,
>)
    ensures
        match r {
            None => ranges@.len() == 0,
            Some(v) => ranges@.len() > 0 && chars::views(v@) == (formatters::gjf_options(
                style,
                false,
            ) + line_options(range_views(ranges@))).push(file@),
        },
{
    if ranges.len() == 0 {
        return None;
    }
    let ghost all = range_views(ranges@);
    let mut args = formatters::gjf_args(style, false);
    let ghost base = chars::views(args@);
    let mut i: usize = 0;
    assert(base + line_options(all.take(0)) =~= base);
    while i < ranges.len()
        invariant
            i <= ranges.len(),
            all == range_views(ranges@),
            chars::views(args@) == base + line_options(all.take(i as int)),
        decreases ranges.len() - i,
    {
        let ghost before = chars::views(args@);
        assert(all.take(i + 1).drop_last() =~= all.take(i as int));
        let (start, end) = ranges[i];
        let range = text::cat3(&text::decimal(start as u64), ":", &text::decimal(end as u64));
        args.push("--lines".to_owned());
        args.push(range);
        assert(chars::views(args@) =~= before + seq!["--lines"@, range@]);
        assert(before + seq!["--lines"@, range@] =~= base + (line_options(all.take(i as int))
            + seq!["--lines"@, range@]));
        i += 1;
    }
    assert(all.take(i as int) =~= all);
    let ghost sofar = chars::views(args@);
    args.push(file.to_owned());
    assert(chars::views(args@) =~= sofar.push(file@));
    Some(args)
}

/// What the index has to hold for a file that was formatted outside it, and
/// notes the file as changed; nothing where formatting changed nothing.
pub fn partial_gjf_update(
    path: &str,
    staged: &Vec<u8>,
    formatted: Vec<u8>,
    changed: &mut PathSet,
) -> (r: Option<Vec<u8>>)
    ensures
        match r {
            None => staged@ == formatted@ && final(changed)@ == old(changed)@,
            Some(v) => staged@ != formatted@ && v == formatted && final(changed)@
                == fspath::inserted(old(changed)@, path@),
        },
{
    if text::same_bytes(staged, &formatted) {
        return None;
    }
    changed.insert(path);
    Some(formatted)
}

/// Adds the files that were formatted in the index alone, and gives the files
/// that have to be staged again: those changed otherwise. Nothing where nothing
/// was changed.
pub fn finish_hook(outcome: &mut FormatOutcome, partial_changed: &PathSet) -> (r: Option<
    Vec<String>,
>)
    ensures
        final(outcome).check_failed == old(outcome).check_failed,
        final(outcome).parse_errors == old(outcome).parse_errors,
        final(outcome).changed@ == fspath::inserted_all(old(outcome).changed@, partial_changed@),
        match r {
            None => final(outcome).changed@.len() == 0,
            Some(v) => final(outcome).changed@.len() > 0 && chars::views(v@) == without(
                final(outcome).changed@,
                partial_changed@,
            ),
        },
{
    outcome.changed.extend(partial_changed.as_list());
    if outcome.changed.len() == 0 {
        return None;
    }
    Some(drop_listed(outcome.changed.as_list(), partial_changed.as_list()))
}

/// Whether the value of the variable turns the experiment on.
pub fn experimental_partial_gjf_enabled(value: Option<&str>) -> (r: bool)
    ensures
        r == (value matches Some(v) && (v@ == "1"@ || v@ == "true"@ || v@ == "TRUE"@ || v@
            == "yes"@ || v@ == "YES"@ || v@ == "on"@ || v@ == "ON"@)),
{
    match value {
        Some(v) => text::same(v, "1") || text::same(v, "true") || text::same(v, "TRUE")
            || text::same(v, "yes") || text::same(v, "YES") || text::same(v, "on") || text::same(
            v,
            "ON",
        ),
        None => false,
    }
}

/// The file is one whose snapshot differs from what it holds afterwards: below
/// the root it is `q`.
pub open spec fn was_modified(
    before: Seq<FileSnapshot>,
    after: Seq<Vec<u8>>,
    root: Seq<char>,
    q: Seq<char>,
) -> bool {
    exists|i: int|
        0 <= i < before.len() && (#[trigger] before[i]).content@ != after[i]@ && fspath::parts(
            before[i].path@,
        ) == fspath::parts(root) + fspath::parts(q)
}

/// After a formatter ran, a path is among the changed files just where it was
/// before, or the contents of some snapshot of that path, taken below the root,
/// differ from what the file holds afterwards. The merge fails just where one of
/// the files that differ does not lie within the root.
pub proof fn changed_are_the_files_that_differ(
    changed: Seq<Seq<char>>,
    before: Seq<FileSnapshot>,
    after: Seq<Vec<u8>>,
    root: Seq<char>,
    q: Seq<char>,
)
    requires
        fspath::increasing(changed),
    ensures
        modified(before, after, root) is Some <==> forall|i: int|
            0 <= i < before.len() && (#[trigger] before[i]).content@ != after[i]@ ==> fspath::within(
                before[i].path@,
                root,
            ),
        modified(before, after, root) matches Some(files) ==> (fspath::holds_path(
            fspath::inserted_all(changed, files),
            q,
        ) <==> fspath::holds_path(changed, q) || was_modified(before, after, root, q)),
{
    lemma_modified_holds(before, after, root, q);
    if let Some(files) = modified(before, after, root) {
        fspath::inserting_all_adds_each(changed, files);
    }
}

proof fn lemma_modified_holds(
    before: Seq<FileSnapshot>,
    after: Seq<Vec<u8>>,
    root: Seq<char>,
    q: Seq<char>,
)
    ensures
        modified(before, after, root) is Some <==> forall|i: int|
            0 <= i < before.len() && (#[trigger] before[i]).content@ != after[i]@ ==> fspath::within(
                before[i].path@,
                root,
            ),
        modified(before, after, root) matches Some(files) ==> (fspath::holds_path(files, q)
            <==> was_modified(before, after, root, q)),
    decreases before.len(),
{
    if before.len() > 0 {
        let t = before.drop_last();
        let n = before.len() - 1;
        lemma_modified_holds(t, after, root, q);
        assert forall|i: int| 0 <= i < n implies t[i] == #[trigger] before[i] by {}
        let last = before[n];
        fspath::relative_paths_lead_there(last.path@, root);
        if modified(before, after, root) is Some {
            assert forall|i: int|
                0 <= i < before.len() && (#[trigger] before[i]).content@ != after[i]@ implies fspath::within(
                before[i].path@,
                root,
            ) by {
                if i < n {
                    assert(t[i].content@ != after[i]@);
                }
            }
        }
        if forall|i: int|
            0 <= i < before.len() && (#[trigger] before[i]).content@ != after[i]@ ==> fspath::within(
                before[i].path@,
                root,
            ) {
            assert forall|i: int|
                0 <= i < t.len() && (#[trigger] t[i]).content@ != after[i]@ implies fspath::within(
                t[i].path@,
                root,
            ) by {
                assert(before[i].content@ != after[i]@);
            }
            assert(before[n].content@ != after[n]@ ==> fspath::within(before[n].path@, root));
        }
        if let Some(files) = modified(before, after, root) {
            let rest = modified(t, after, root)->0;
            assert(was_modified(before, after, root, q) <==> was_modified(t, after, root, q) || (
            last.content@ != after[n]@ && fspath::parts(last.path@) == fspath::parts(root)
                + fspath::parts(q))) by {
                if was_modified(t, after, root, q) {
                    let i = choose|i: int|
                        0 <= i < t.len() && (#[trigger] t[i]).content@ != after[i]@
                            && fspath::parts(t[i].path@) == fspath::parts(root) + fspath::parts(q);
                    assert(before[i].content@ != after[i]@);
                }
                if was_modified(before, after, root, q) {
                    let i = choose|i: int|
                        0 <= i < before.len() && (#[trigger] before[i]).content@ != after[i]@
                            && fspath::parts(before[i].path@) == fspath::parts(root)
                            + fspath::parts(q);
                    if i < n {
                        assert(t[i].content@ != after[i]@);
                    }
                }
            }
            if last.content@ != after[n]@ {
                let rel = fspath::relative(last.path@, root)->0;
                assert(files == rest.push(rel));
                lemma_holds_path_push(rest, rel, q);
                let m = fspath::parts(root).len() as int;
                assert((fspath::parts(root) + fspath::parts(q)).skip(m) =~= fspath::parts(q));
                assert((fspath::parts(root) + fspath::parts(rel)).skip(m) =~= fspath::parts(rel));
            }
        }
    } else {
        assert(!was_modified(before, after, root, q));
    }
}

proof fn lemma_holds_path_push(s: Seq<Seq<char>>, x: Seq<char>, q: Seq<char>)
    ensures
        fspath::holds_path(s.push(x), q) == (fspath::holds_path(s, q) || fspath::parts(x)
            == fspath::parts(q)),
{
    let t = s.push(x);
    assert(t[s.len() as int] == x);
    if fspath::holds_path(s, q) {
        let i = choose|i: int|
            0 <= i < s.len() && fspath::parts(#[trigger] s[i]) == fspath::parts(q);
        assert(fspath::parts(t[i]) == fspath::parts(q));
    }
    if fspath::holds_path(t, q) {
        let i = choose|i: int|
            0 <= i < t.len() && fspath::parts(#[trigger] t[i]) == fspath::parts(q);
        if i < s.len() {
            assert(fspath::parts(s[i]) == fspath::parts(q));
        }
    }
}

/// What a formatter reported in check mode is noted file by file: a path is among
/// the changed files just where it was before or some report names it, below the
/// root where it lies there and as it is where it does not.
pub proof fn reported_files_are_changed_files(
    changed: Seq<Seq<char>>,
    reported: Seq<Seq<char>>,
    root: Seq<char>,
    q: Seq<char>,
)
    requires
        fspath::increasing(changed),
    ensures
        fspath::holds_path(fspath::inserted_all(changed, relatives(reported, root)), q)
            <==> fspath::holds_path(changed, q) || exists|i: int|
            0 <= i < reported.len() && fspath::parts(#[trigger] reported[i]) == (if fspath::within(
                reported[i],
                root,
            ) {
                fspath::parts(root) + fspath::parts(q)
            } else {
                fspath::parts(q)
            }),
{
    let all = relatives(reported, root);
    fspath::inserting_all_adds_each(changed, all);
    let m = fspath::parts(root).len() as int;
    assert((fspath::parts(root) + fspath::parts(q)).skip(m) =~= fspath::parts(q));
    assert forall|i: int| 0 <= i < reported.len() implies (fspath::parts(#[trigger] reported[i])
        == (if fspath::within(reported[i], root) {
        fspath::parts(root) + fspath::parts(q)
    } else {
        fspath::parts(q)
    }) <==> fspath::parts(all[i]) == fspath::parts(q)) by {
        fspath::relative_paths_lead_there(reported[i], root);
        if fspath::within(reported[i], root) {
            assert((fspath::parts(root) + fspath::parts(all[i])).skip(m) =~= fspath::parts(all[i]));
        }
    }
    if fspath::holds_path(all, q) {
        let i = choose|i: int|
            0 <= i < all.len() && fspath::parts(#[trigger] all[i]) == fspath::parts(q);
        assert(fspath::parts(reported[i]) == (if fspath::within(reported[i], root) {
            fspath::parts(root) + fspath::parts(q)
        } else {
            fspath::parts(q)
        }));
    }
    if exists|i: int|
        0 <= i < reported.len() && fspath::parts(#[trigger] reported[i]) == (if fspath::within(
            reported[i],
            root,
        ) {
            fspath::parts(root) + fspath::parts(q)
        } else {
            fspath::parts(q)
        }) {
        let i = choose|i: int|
            0 <= i < reported.len() && fspath::parts(#[trigger] reported[i]) == (if fspath::within(
                reported[i],
                root,
            ) {
                fspath::parts(root) + fspath::parts(q)
            } else {
                fspath::parts(q)
            });
        assert(fspath::parts(all[i]) == fspath::parts(q));
    }
}

/// The files to be staged again are the changed ones but for those that were
/// formatted in the index alone, in order.
pub proof fn listed_files_are_left_out(files: Seq<Seq<char>>, list: Seq<Seq<char>>)
    ensures
        without(files, list) == files.filter(|f: Seq<char>| !fspath::holds_path(list, f)),
    decreases files.len(),
{
    reveal(Seq::filter);
    if files.len() > 0 {
        listed_files_are_left_out(files.drop_last(), list);
    }
}

/// A configured formatter takes just the files that one of its include patterns
/// accepts and none of its exclude patterns, which do not count where the files
/// are forced; the order stays. A formatter that is not configured takes none.
pub proof fn formatters_select_by_patterns(s: ToolScopes, files: Seq<Seq<char>>)
    ensures
        ktfmt_files(s, files) == (match s.ktfmt {
            Some(g) => files.filter(
                |f: Seq<char>|
                    globs::any_accepts(globs::set_patterns(g.includes), f) && (s.forced
                        || !globs::any_accepts(globs::set_patterns(g.exclude), f)),
            ),
            None => Seq::empty(),
        }),
        gjf_files(s, files) == (match s.gjf {
            Some(g) => files.filter(
                |f: Seq<char>|
                    globs::any_accepts(globs::set_patterns(g.includes), f) && (s.forced
                        || !globs::any_accepts(globs::set_patterns(g.exclude), f)),
            ),
            None => Seq::empty(),
        }),
        rustfmt_files(s, files) == (match s.rustfmt {
            Some(g) => files.filter(
                |f: Seq<char>|
                    globs::any_accepts(globs::set_patterns(g.includes), f) && (s.forced
                        || !globs::any_accepts(globs::set_patterns(g.exclude), f)),
            ),
            None => Seq::empty(),
        }),
        partial_gjf_files(s, files) == gjf_files(s, files).filter(
            |f: Seq<char>| fspath::suffix(f) == Some("java"@),
        ),
    decreases files.len(),
{
    reveal(Seq::filter);
    let java = |f: Seq<char>| fspath::suffix(f) == Some("java"@);
    if files.len() > 0 {
        let t = files.drop_last();
        formatters_select_by_patterns(s, t);
        crate::license::kinds_by_extension(files.last());
        let rest = gjf_files(s, t);
        assert(rest.push(files.last()).drop_last() =~= rest);
    }
}

/// Headers by kind of source: Kotlin and its scripts share theirs. A header goes
/// onto every file of its kind that its excludes do not accept.
pub proof fn headers_by_kind(headers: Headers, kind: SourceKind, path: Seq<char>)
    ensures
        header_of(headers, SourceKind::Kts, path) == header_of(headers, SourceKind::Kotlin, path),
        ({
            let spec = if kind is Java {
                headers.java
            } else if kind is Rust {
                headers.rust
            } else {
                headers.kotlin
            };
            &&& spec is None ==> header_of(headers, kind, path) is None
            &&& spec matches Some(h) ==> (header_of(headers, kind, path) is None
                <==> globs::any_accepts(globs::set_patterns(h.excludes), path))
            &&& header_of(headers, kind, path) matches Some(p) ==> (spec matches Some(h) && p == (
                h.rendered@,
                h.marker@,
            ))
        }),
{
}

/// A file has a task just where it is a source of a known kind that is to have a
/// header, or that is in the scope of the whitespace passes with one of them on;
/// the task names the file and its kind, and has just the passes of the scope.
pub proof fn tasks_by_file(
    headers: Headers,
    scopes: ToolScopes,
    ws: whitespace::Options,
    path: Seq<char>,
)
    ensures
        ({
            let kind = crate::license::kind_of_path(path);
            let in_ws = globs::any_accepts(globs::set_patterns(scopes.whitespace.includes), path)
                && (scopes.forced || !globs::any_accepts(
                globs::set_patterns(scopes.whitespace.exclude),
                path,
            ));
            let task = task_for(headers, scopes, ws, path);
            &&& task is Some <==> kind is Some && (header_of(headers, kind->0, path) is Some || (
            in_ws && (ws.strip_trailing || ws.final_newline)))
            &&& task matches Some(t) ==> {
                &&& t.path == path
                &&& Some(t.kind) == kind
                &&& t.header == header_of(headers, kind->0, path)
                &&& t.ws.strip_trailing == (in_ws && ws.strip_trailing)
                &&& t.ws.final_newline == (in_ws && ws.final_newline)
            }
        }),
{
}

/// The tasks of files are those of each file that has one, in order.
pub proof fn tasks_keep_the_order(
    headers: Headers,
    scopes: ToolScopes,
    ws: whitespace::Options,
    files: Seq<Seq<char>>,
)
    ensures
        tasks_for(headers, scopes, ws, files) == files.filter(
            |f: Seq<char>| task_for(headers, scopes, ws, f) is Some,
        ).map_values(|f: Seq<char>| task_for(headers, scopes, ws, f)->0),
    decreases files.len(),
{
    reveal(Seq::filter);
    let f = |f: Seq<char>| task_for(headers, scopes, ws, f) is Some;
    let g = |f: Seq<char>| task_for(headers, scopes, ws, f)->0;
    if files.len() > 0 {
        let t = files.drop_last();
        tasks_keep_the_order(headers, scopes, ws, t);
        let rest = t.filter(f);
        assert(rest.push(files.last()).map_values(g) =~= rest.map_values(g).push(g(files.last())));
    } else {
        assert(files.filter(f).map_values(g) =~= Seq::empty());
    }
}

/// A task whose text comes out otherwise than it went in is reported and its
/// file written with the new text, below the root; what is reported is written
/// in the same order, and comes from a task that found something.
pub proof fn changes_are_reported_and_written(
    tasks: Seq<TaskModel>,
    contents: Seq<Seq<char>>,
    root: Seq<char>,
    i: int,
)
    requires
        tasks.len() == contents.len(),
        0 <= i < tasks.len(),
    ensures
        new_text(tasks[i], contents[i]) != contents[i] || changes(tasks[i], contents[i])
            ==> changed_files(tasks, contents).contains(tasks[i].path) && changed_texts(
            tasks,
            contents,
            root,
        ).contains((fspath::joined(root, tasks[i].path), new_text(tasks[i], contents[i]))),
        changed_files(tasks, contents).len() == changed_texts(tasks, contents, root).len(),
        forall|k: int|
            0 <= k < changed_files(tasks, contents).len() ==> is_change_of(
                tasks,
                contents,
                root,
                #[trigger] changed_files(tasks, contents)[k],
                changed_texts(tasks, contents, root)[k],
            ),
{
    lemma_changes(tasks, contents, root, tasks.len());
    assert(tasks.take(tasks.len() as int) =~= tasks);
    if !changes(tasks[i], contents[i]) {
        pipeline::unreported_files_stay(
            contents[i],
            tasks[i].kind,
            tasks[i].header,
            tasks[i].ws,
        );
    }
}

/// The path and the text are those of a task that found something.
pub open spec fn is_change_of(
    tasks: Seq<TaskModel>,
    contents: Seq<Seq<char>>,
    root: Seq<char>,
    path: Seq<char>,
    write: (Seq<char>, Seq<char>),
) -> bool {
    exists|j: int|
        0 <= j < tasks.len() && changes(#[trigger] tasks[j], contents[j]) && path == tasks[j].path
            && write == (fspath::joined(root, path), new_text(tasks[j], contents[j]))
}

proof fn lemma_changes(
    tasks: Seq<TaskModel>,
    contents: Seq<Seq<char>>,
    root: Seq<char>,
    n: nat,
)
    requires
        n <= tasks.len(),
    ensures
        ({
            let files = changed_files(tasks.take(n as int), contents);
            let texts = changed_texts(tasks.take(n as int), contents, root);
            &&& files.len() == texts.len()
            &&& forall|j: int|
                0 <= j < n && changes(#[trigger] tasks[j], contents[j]) ==> files.contains(
                    tasks[j].path,
                ) && texts.contains(
                    (fspath::joined(root, tasks[j].path), new_text(tasks[j], contents[j])),
                )
            &&& forall|k: int|
                0 <= k < files.len() ==> is_change_of(
                    tasks,
                    contents,
                    root,
                    #[trigger] files[k],
                    texts[k],
                )
        }),
    decreases n,
{
    if n > 0 {
        let m = (n - 1) as nat;
        lemma_changes(tasks, contents, root, m);
        assert(tasks.take(n as int).drop_last() =~= tasks.take(m as int));
        let t = tasks[m as int];
        let files = changed_files(tasks.take(m as int), contents);
        let texts = changed_texts(tasks.take(m as int), contents, root);
        let all = changed_files(tasks.take(n as int), contents);
        let written = changed_texts(tasks.take(n as int), contents, root);
        if changes(t, contents[m as int]) {
            let w = (fspath::joined(root, t.path), new_text(t, contents[m as int]));
            assert(all == files.push(t.path));
            assert(written == texts.push(w));
            assert(all[files.len() as int] == t.path);
            assert(written[texts.len() as int] == w);
            assert forall|j: int|
                0 <= j < n && changes(#[trigger] tasks[j], contents[j]) implies all.contains(
                tasks[j].path,
            ) && written.contains(
                (fspath::joined(root, tasks[j].path), new_text(tasks[j], contents[j])),
            ) by {
                if j < m {
                    let a = choose|a: int| 0 <= a < files.len() && files[a] == tasks[j].path;
                    assert(all[a] == tasks[j].path);
                    let x = (fspath::joined(root, tasks[j].path), new_text(tasks[j], contents[j]));
                    let b = choose|b: int| 0 <= b < texts.len() && texts[b] == x;
                    assert(written[b] == x);
                }
            }
            assert forall|k: int| 0 <= k < all.len() implies is_change_of(
                tasks,
                contents,
                root,
                #[trigger] all[k],
                written[k],
            ) by {
                if k < files.len() {
                    assert(all[k] == files[k] && written[k] == texts[k]);
                } else {
                    assert(changes(tasks[m as int], contents[m as int]));
                }
            }
        }
    }
}

/// A file is kept just where the configuration formats it, and the order stays.
pub proof fn formattable_files_keep_the_order(
    config: Config,
    root: Seq<char>,
    texts: FileTexts,
    files: Seq<Seq<char>>,
)
    ensures
        formattable(config, root, texts, files) == files.filter(
            |f: Seq<char>| config.formats(root, texts, f),
        ),
    decreases files.len(),
{
    reveal(Seq::filter);
    if files.len() > 0 {
        formattable_files_keep_the_order(config, root, texts, files.drop_last());
    }
}

/// Forced files are all candidates; others just where no pattern of
/// `[paths].exclude` accepts them.
pub proof fn candidates_by_exclude(
    universe: Seq<Seq<char>>,
    config: Config,
    root: Seq<char>,
    texts: FileTexts,
    f: Seq<char>,
)
    ensures
        candidates_of(universe, true, config, root, texts) == Some(universe),
        candidates_of(universe, false, config, root, texts) is Some <==> (
        config.paths.exclude.patterns(root, texts) matches Some(ps) && globs::well_formed(ps)),
        candidates_of(universe, false, config, root, texts) matches Some(files) ==> (files.contains(
            f,
        ) <==> universe.contains(f) && forall|i: int|
            0 <= i < config.paths.exclude.patterns(root, texts)->0.len() ==> !globs::glob_accepts(
                #[trigger] config.paths.exclude.patterns(root, texts)->0[i],
                f,
            )),
{
    if let Some(ps) = config.paths.exclude.patterns(root, texts) {
        paths::excluded_files_are_left_out(universe, ps, f);
    }
}

/// Where nothing is staged in part the hook formats all its candidates. Else it
/// stops and names all files staged in part, unless it may format some of them in
/// the index alone; and where it goes on, every candidate is formatted, in the
/// tree or in the index alone.
pub proof fn hook_formats_every_candidate(
    config: Config,
    root: Seq<char>,
    texts: FileTexts,
    candidates: Seq<Seq<char>>,
    staging: StagingCheck,
    allow_partial_gjf: bool,
    r: Result<HookFiles, RunError>,
    c: Seq<char>,
)
    requires
        is_hook_decision(config, root, texts, candidates, staging, allow_partial_gjf, r),
    ensures
        staging is Safe ==> r is Ok,
        staging matches StagingCheck::PartialStage { files } ==> (!allow_partial_gjf ==> (
        r matches Err(RunError::PartialStaging { files: named, experimental }) && named == files
            && !experimental)),
        r matches Ok(h) ==> (staging is Safe ==> h.partial_gjf@.len() == 0 && chars::views(
            h.normal@,
        ) == candidates),
        r matches Ok(h) ==> (candidates.contains(c) ==> chars::views(h.normal@).contains(c)
            || fspath::holds_path(chars::views(h.partial_gjf@), c)),
        r matches Ok(h) ==> (chars::views(h.normal@).contains(c) ==> candidates.contains(c)),
        r matches Ok(h) ==> (chars::views(h.partial_gjf@).contains(c) ==> fspath::suffix(c) == Some(
            "java"@,
        ) && (staging matches StagingCheck::PartialStage { files } && chars::views(
            files@,
        ).contains(c))),
{
    if let Ok(h) = r {
        match staging {
            StagingCheck::Safe => {
                if chars::views(h.partial_gjf@).contains(c) {
                    let k = choose|k: int|
                        0 <= k < chars::views(h.partial_gjf@).len() && chars::views(
                            h.partial_gjf@,
                        )[k] == c;
                    assert(h.partial_gjf@.len() > 0);
                }
            },
            StagingCheck::PartialStage { files } => {
                let handled = chars::views(h.partial_gjf@);
                let all = chars::views(files@);
                lemma_without_contains(candidates, handled, c);
                assert(is_partial_selection(config, root, texts, all, handled));
                if handled.contains(c) {
                    let s = choose|s: ToolScopes| #[trigger]
                        s.are_for(config, root, texts, false) && handled == partial_gjf_files(
                            s,
                            all,
                        );
                    lemma_partial_gjf_contains(s, all, c);
                    crate::license::kinds_by_extension(c);
                }
            },
        }
    }
}

proof fn lemma_without_contains(files: Seq<Seq<char>>, list: Seq<Seq<char>>, c: Seq<char>)
    ensures
        without(files, list).contains(c) == (files.contains(c) && !fspath::holds_path(list, c)),
    decreases files.len(),
{
    if files.len() > 0 {
        let rest = without(files.drop_last(), list);
        lemma_without_contains(files.drop_last(), list, c);
        lemma_contains_last(files, c);
        lemma_contains_push(rest, files.last(), c);
    }
}

proof fn lemma_partial_gjf_contains(s: ToolScopes, files: Seq<Seq<char>>, c: Seq<char>)
    requires
        partial_gjf_files(s, files).contains(c),
    ensures
        files.contains(c),
        crate::license::kind_of_path(c) == Some(SourceKind::Java),
        s.gjf_takes(c),
    decreases files.len(),
{
    if files.len() > 0 {
        let rest = partial_gjf_files(s, files.drop_last());
        lemma_contains_last(files, c);
        lemma_contains_push(rest, files.last(), c);
        if rest.contains(c) {
            lemma_partial_gjf_contains(s, files.drop_last(), c);
        }
    }
}

/// A hook that checks plans a check and stages nothing; one that formats plans
/// to write and to stage what it changed.
pub proof fn hook_mode_decides(
    config: Config,
    root: Seq<char>,
    texts: FileTexts,
    files: HookFiles,
    year: nat,
    r: Result<Option<RunPlan>, RunError>,
)
    requires
        is_hook_plan(config, root, texts, files, year, r),
    ensures
        r matches Ok(plan) ==> (plan matches Some(p) && (config.hook.mode is Check ==> p.check
            && !p.restage) && (!(config.hook.mode is Check) ==> !p.check && p.restage)
            && p.partial_gjf == files.partial_gjf),
        r is Ok <==> can_plan(config, root, texts),
{
}

/// Stages run in this order: the passes on texts, ktfmt, google-java-format,
/// rustfmt, files in the index alone, staging again, and the end. Formatters run
/// just where they have files, and the last two only where the run writes.
pub proof fn stages_in_order(plan: RunPlan)
    ensures
        Stage::Pipeline.place() < Stage::Ktfmt.place() < Stage::Gjf.place()
            < Stage::Rustfmt.place() < Stage::PartialGjf.place() < Stage::Restage.place()
            < Stage::Finished.place(),
        plan.has_work(Stage::Pipeline) && plan.has_work(Stage::Finished),
        plan.has_work(Stage::Ktfmt) <==> plan.ktfmt@.len() != 0,
        plan.has_work(Stage::Gjf) <==> plan.gjf@.len() != 0,
        plan.has_work(Stage::Rustfmt) <==> plan.rustfmt@.len() != 0,
        plan.has_work(Stage::PartialGjf) <==> !plan.check && plan.partial_gjf@.len() != 0,
        plan.has_work(Stage::Restage) <==> !plan.check && plan.restage,
{
}

/// A hunk `@@ -.. +start,count @@` adds `count` lines from `start` on, and none
/// where `count` is zero; without a count it adds one line. Other lines add
/// nothing.
pub proof fn hunks_add_the_lines_of_their_header(
    old_part: Seq<char>,
    start: nat,
    count: nat,
    tail: Seq<char>,
    line: Seq<char>,
)
    requires
        forall|i: int| 0 <= i < old_part.len() ==> !chars::is_whitespace(#[trigger] old_part[i]),
        tail.len() == 0 || chars::is_whitespace(tail[0]),
        start + count <= usize::MAX,
    ensures
        added_lines("@@ -"@ + old_part + " +"@ + chars::decimal(start) + tail) == Some(
            (start, start),
        ),
        added_lines(
            "@@ -"@ + old_part + " +"@ + chars::decimal(start) + ","@ + chars::decimal(count) + tail,
        ) == if count == 0 {
            None
        } else {
            Some((start, (start + count - 1) as nat))
        },
        !chars::starts_with(line, "@@"@) ==> added_lines(line) is None,
{
    let a = chars::decimal(start);
    let b = chars::decimal(count);
    lemma_start_and_count(start, count);
    lemma_hunk_words(old_part, a, tail);
    let part = a + ","@ + b;
    lemma_hunk_words(old_part, part, tail);
    let head = "@@ -"@ + old_part + " +"@;
    assert(head + a + ","@ + b + tail =~= head + part + tail);
}

proof fn lemma_start_and_count(start: nat, count: nat)
    requires
        start + count <= usize::MAX,
    ensures
        ({
            let a = chars::decimal(start);
            let part = a + ","@ + chars::decimal(count);
            &&& start_and_count(a) == Some((start, 1nat))
            &&& start_and_count(part) == Some((start, count))
            &&& forall|i: int|
                0 <= i < a.len() ==> '0' <= #[trigger] a[i] <= '9' || a[i] == ','
            &&& forall|i: int|
                0 <= i < part.len() ==> '0' <= #[trigger] part[i] <= '9' || part[i] == ','
        }),
{
    reveal_strlit(",");
    let a = chars::decimal(start);
    let b = chars::decimal(count);
    let part = a + ","@ + b;
    chars::lemma_decimal_value(start);
    chars::lemma_decimal_value(count);
    assert forall|i: int| 0 <= i < a.len() implies '0' <= #[trigger] a[i] <= '9' by {
        assert(chars::is_digit(a[i]));
    }
    assert forall|i: int| 0 <= i < b.len() implies '0' <= #[trigger] b[i] <= '9' by {
        assert(chars::is_digit(b[i]));
    }
    lemma_no_comma(a);
    assert(a[0] != '+' && b[0] != '+');
    let n = a.len() as int;
    assert(","@[0] == ',');
    assert(!a.contains(',')) by {
        if a.contains(',') {
            let k = choose|k: int| 0 <= k < a.len() && a[k] == ',';
            assert('0' <= a[k] <= '9');
        }
    }
    chars::lemma_find_first(a, ","@, b);
    let i = n;
    assert(part.take(i) =~= a);
    assert(part.skip(i + 1) =~= b);
    assert forall|i: int| 0 <= i < part.len() implies '0' <= #[trigger] part[i] <= '9' || part[i]
        == ',' by {
        if i < n {
            assert(part[i] == a[i]);
        } else if i > n {
            assert(part[i] == b[i - n - 1]);
        }
    }
}

proof fn lemma_no_comma(a: Seq<char>)
    requires
        forall|i: int| 0 <= i < a.len() ==> '0' <= #[trigger] a[i] <= '9',
    ensures
        chars::find(a, ","@) is None,
{
    reveal_strlit(",");
    chars::lemma_find(a, ","@);
    if chars::contains(a, ","@) {
        let i = choose|i: int| chars::occurs_at(a, ","@, i);
        assert(a.subrange(i, i + 1)[0] == ',');
        assert(a[i] == ',');
    }
}

proof fn lemma_hunk_words(old_part: Seq<char>, part: Seq<char>, tail: Seq<char>)
    requires
        forall|i: int| 0 <= i < old_part.len() ==> !chars::is_whitespace(#[trigger] old_part[i]),
        forall|i: int|
            0 <= i < part.len() ==> '0' <= #[trigger] part[i] <= '9' || part[i] == ',',
        tail.len() == 0 || chars::is_whitespace(tail[0]),
    ensures
        ({
            let line = "@@ -"@ + old_part + " +"@ + part + tail;
            chars::starts_with(line, "@@"@) && added_part(chars::words(line)) == Some(part)
        }),
{
    reveal_strlit("@@ -");
    reveal_strlit("@@");
    reveal_strlit(" +");
    let line = "@@ -"@ + old_part + " +"@ + part + tail;
    assert(line.take(2) =~= "@@"@);
    let w1 = "@@"@;
    let w2 = seq!['-'] + old_part;
    let w3 = seq!['+'] + part;
    let r3 = w3 + tail;
    let r2 = w2.push(' ') + r3;
    assert(line =~= w1.push(' ') + r2);
    chars::lemma_first_word(w1, ' ', r2);
    chars::lemma_first_word(w2, ' ', r3);
    if tail.len() == 0 {
        assert(r3 =~= w3);
        chars::lemma_only_word(w3);
    } else {
        assert(r3 =~= w3.push(tail[0]) + tail.skip(1));
        chars::lemma_first_word(w3, tail[0], tail.skip(1));
    }
    let ws = chars::words(line);
    assert(ws[0] == w1 && ws[1] == w2 && ws[2] == w3);
    assert(ws.skip(1)[0] == w2);
    assert(ws.skip(1).skip(1)[0] == w3);
    assert(w3.skip(1) =~= part);
    assert(added_part(ws.skip(1).skip(1)) == Some(part));
    assert(added_part(ws.skip(1)) == Some(part));
}

/// The lines that a diff adds are those of each of its hunks, in order.
pub proof fn diffs_add_the_lines_of_their_hunks(lines: Seq<Seq<char>>)
    ensures
        all_added_lines(lines) == lines.filter(|l: Seq<char>| added_lines(l) is Some).map_values(
            |l: Seq<char>| added_lines(l)->0,
        ),
    decreases lines.len(),
{
    reveal(Seq::filter);
    let f = |l: Seq<char>| added_lines(l) is Some;
    let g = |l: Seq<char>| added_lines(l)->0;
    if lines.len() > 0 {
        let t = lines.drop_last();
        diffs_add_the_lines_of_their_hunks(t);
        let rest = t.filter(f);
        assert(rest.push(lines.last()).map_values(g) =~= rest.map_values(g).push(g(lines.last())));
    } else {
        assert(lines.filter(f).map_values(g) =~= Seq::empty());
    }
}

/// google-java-format is told each range of lines by `--lines` and the first and
/// the last line with a colon between them, in order.
pub proof fn ranges_are_told_one_by_one(ranges: Seq<(nat, nat)>, k: int)
    requires
        0 <= k < ranges.len(),
    ensures
        line_options(ranges).len() == 2 * ranges.len(),
        line_options(ranges)[2 * k] == "--lines"@,
        line_options(ranges)[2 * k + 1] == chars::decimal(ranges[k].0) + seq![':']
            + chars::decimal(ranges[k].1),
    decreases ranges.len(),
{
    reveal_strlit(":");
    assert(":"@ =~= seq![':']);
    let t = ranges.drop_last();
    if t.len() > 0 {
        ranges_are_told_one_by_one(t, if k < t.len() { k } else { 0 });
        if k < t.len() {
            assert(t[k] == ranges[k]);
        }
    } else {
        assert(line_options(t) =~= Seq::<Seq<char>>::empty());
    }
}

/// Where the scopes cannot be used, no file counts as one that nothing is done
/// to; and excludes of a header that cannot be used keep no header off.
pub proof fn unusable_settings_spare_no_file(
    config: Config,
    root: Seq<char>,
    texts: FileTexts,
    kind: SourceKind,
    path: Seq<char>,
)
    ensures
        !config.scopes_build(root, texts) ==> config.formats(root, texts, path),
        config.header_for(kind) is None ==> !config.wants_header(root, texts, kind, path),
        config.header_for(kind) matches Some(h) ==> (!pipeline::excludes_load(h.1, root, texts)
            ==> config.wants_header(root, texts, kind, path)),
        config.header_for(kind) matches Some(h) ==> (pipeline::excludes_load(h.1, root, texts)
            ==> (config.wants_header(root, texts, kind, path) <==> !globs::any_accepts(
            pipeline::exclude_patterns(h.1, root, texts)->0,
            path,
        ))),
        kind is Kotlin || kind is Kts ==> config.header_for(kind) == config.kotlin_header(),
        kind is Java ==> config.header_for(kind) == config.java_header(),
        kind is Rust ==> config.header_for(kind) == config.rust_header(),
{
}

/// Each configured tool has its own scope, with the patterns of its language by
/// default; a tool that is not configured has none, and needs none.
pub proof fn scopes_by_tool(config: Config, root: Seq<char>, texts: FileTexts)
    ensures
        config.ktfmt matches Some(k) ==> config.ktfmt_scope(root, texts)
            == crate::config::scope_or_default(
            k.paths,
            root,
            texts,
            seq!["**/*.kt"@, "**/*.kts"@],
        ),
        config.gjf matches Some(g) ==> config.gjf_scope(root, texts)
            == crate::config::scope_or_default(g.paths, root, texts, seq!["**/*.java"@]),
        config.rustfmt matches Some(r) ==> config.rustfmt_scope(root, texts)
            == crate::config::scope_or_default(r.paths, root, texts, seq!["**/*.rs"@]),
        config.whitespace_scope(root, texts) == crate::config::scope_or_default(
            config.whitespace.paths,
            root,
            texts,
            seq!["**/*.kt"@, "**/*.kts"@, "**/*.java"@, "**/*.rs"@],
        ),
        config.ktfmt is None ==> config.ktfmt_scope(root, texts) is None,
        config.gjf is None ==> config.gjf_scope(root, texts) is None,
        config.rustfmt is None ==> config.rustfmt_scope(root, texts) is None,
        config.scopes_build(root, texts) <==> {
            &&& config.ktfmt is Some ==> (config.ktfmt_scope(root, texts) matches Some((i, e))
                && globs::well_formed(i) && globs::well_formed(e))
            &&& config.gjf is Some ==> (config.gjf_scope(root, texts) matches Some((i, e))
                && globs::well_formed(i) && globs::well_formed(e))
            &&& config.rustfmt is Some ==> (config.rustfmt_scope(root, texts) matches Some((i, e))
                && globs::well_formed(i) && globs::well_formed(e))
            &&& config.whitespace_scope(root, texts) matches Some((i, e)) && globs::well_formed(i)
                && globs::well_formed(e)
        },
{
}

/// The plan of a run hands each formatter its files: those of ktfmt and
/// google-java-format by their full paths, those of rustfmt from the root.
pub proof fn plans_hand_over_the_files(
    plan: RunPlan,
    headers: Headers,
    scopes: ToolScopes,
    ws: whitespace::Options,
    root: Seq<char>,
    files: Seq<Seq<char>>,
)
    requires
        plan.follows(headers, scopes, ws, root, files),
    ensures
        chars::views(plan.ktfmt@) == ktfmt_files(scopes, files).map_values(
            |f: Seq<char>| fspath::joined(root, f),
        ),
        chars::views(plan.gjf@) == gjf_files(scopes, files).map_values(
            |f: Seq<char>| fspath::joined(root, f),
        ),
        chars::views(plan.rustfmt@) == rustfmt_files(scopes, files),
        models(plan.tasks@) == tasks_for(headers, scopes, ws, files),
{
}

/// Where a run can be planned, the configuration formats a file just where a plan
/// has a task for it or hands it to a formatter.
pub proof fn formatted_is_what_plans_act_on(
    config: Config,
    root: Seq<char>,
    texts: FileTexts,
    h: Headers,
    s: ToolScopes,
    year: nat,
    path: Seq<char>,
)
    requires
        can_plan(config, root, texts),
        h.are_made_from(config, root, texts, year),
        s.are_for(config, root, texts, false),
    ensures
        ({
            let ws = whitespace::Options {
                strip_trailing: config.whitespace.strip_trailing,
                final_newline: config.whitespace.final_newline,
            };
            config.formats(root, texts, path) <==> task_for(h, s, ws, path) is Some
                || ktfmt_files(s, seq![path]).len() > 0 || gjf_files(s, seq![path]).len() > 0
                || rustfmt_files(s, seq![path]).len() > 0
        }),
{
    lemma_formats(config, root, texts, h, s, year, path);
    let one = seq![path];
    assert(one.drop_last() =~= Seq::<Seq<char>>::empty());
    assert(one.last() == path);
    assert(ktfmt_files(s, one.drop_last()).len() == 0);
    assert(gjf_files(s, one.drop_last()).len() == 0);
    assert(rustfmt_files(s, one.drop_last()).len() == 0);
}

/// The files of a scope come from git for a run on all or on the staged files,
/// and else from the walk or from the targets.
pub proof fn scopes_have_their_source<G: GitContext>(
    git: &G,
    scope: Scope,
    walked: Vec<String>,
    answer: Result<Vec<String>, GitError>,
)
    requires
        answers_scope(git, scope, walked, answer),
    ensures
        scope is All ==> call_ensures(G::ls_files, (git,), answer),
        scope is Staged ==> call_ensures(G::staged_files, (git,), answer),
        scope is Walk ==> (answer matches Ok(v) && v == walked),
        scope matches Scope::Explicit { files, .. } ==> (answer matches Ok(v) && v == files),
{
}

/// Of patterns that cannot be used the includes are reported first, and then the
/// excludes.
pub proof fn bad_includes_are_reported_first(
    includes: Seq<Seq<char>>,
    exclude: Seq<Seq<char>>,
    e: RunError,
)
    requires
        is_glob_fault(includes, exclude, e),
    ensures
        e is ToolGlobs,
        e->ToolGlobs_0 is Includes <==> !globs::well_formed(includes),
        (e matches RunError::ToolGlobs(ToolGlobError::Includes(g))) ==> (
        e->ToolGlobs_0)->Includes_0.is_for(includes),
        (e matches RunError::ToolGlobs(ToolGlobError::Excludes(g))) ==> (
        e->ToolGlobs_0)->Excludes_0.is_for(exclude),
{
}

/// Of tools whose scopes cannot be used the first is reported, in this order:
/// ktfmt, google-java-format, rustfmt, the whitespace passes.
pub proof fn first_bad_scope_is_reported(
    config: Config,
    root: Seq<char>,
    texts: FileTexts,
    e: RunError,
)
    requires
        !config.scopes_build(root, texts),
        config.is_scopes_fault(root, texts, e),
    ensures
        ({
            let kt = config.ktfmt is Some && !scope_builds(config.ktfmt_scope(root, texts));
            let g = config.gjf is Some && !scope_builds(config.gjf_scope(root, texts));
            let r = config.rustfmt is Some && !scope_builds(config.rustfmt_scope(root, texts));
            &&& kt ==> is_scope_fault(
                config.ktfmt->0.paths,
                seq!["**/*.kt"@, "**/*.kts"@],
                root,
                texts,
                e,
            )
            &&& !kt && g ==> is_scope_fault(
                config.gjf->0.paths,
                seq!["**/*.java"@],
                root,
                texts,
                e,
            )
            &&& !kt && !g && r ==> is_scope_fault(
                config.rustfmt->0.paths,
                seq!["**/*.rs"@],
                root,
                texts,
                e,
            )
            &&& !kt && !g && !r ==> is_scope_fault(
                config.whitespace.paths,
                seq!["**/*.kt"@, "**/*.kts"@, "**/*.java"@, "**/*.rs"@],
                root,
                texts,
                e,
            )
        }),
{
}

/// Headers that cannot be used are reported before scopes, and of them the first
/// in the order Kotlin, Java, Rust.
pub proof fn bad_headers_are_reported_first(
    config: Config,
    root: Seq<char>,
    texts: FileTexts,
    e: RunError,
)
    requires
        !can_plan(config, root, texts),
        is_plan_fault(config, root, texts, e),
    ensures
        ({
            let kt = config.kotlin_header() is Some && !pipeline::header_loads(
                config.kotlin_header()->0,
                root,
                texts,
            );
            let j = config.java_header() is Some && !pipeline::header_loads(
                config.java_header()->0,
                root,
                texts,
            );
            let r = config.rust_header() is Some && !pipeline::header_loads(
                config.rust_header()->0,
                root,
                texts,
            );
            &&& kt ==> (e matches RunError::Header(h) && h.is_header_fault(
                config.kotlin_header()->0,
                root,
                texts,
            ))
            &&& !kt && j ==> (e matches RunError::Header(h) && h.is_header_fault(
                config.java_header()->0,
                root,
                texts,
            ))
            &&& !kt && !j && r ==> (e matches RunError::Header(h) && h.is_header_fault(
                config.rust_header()->0,
                root,
                texts,
            ))
            &&& !kt && !j && !r ==> !config.scopes_build(root, texts) && config.is_scopes_fault(
                root,
                texts,
                e,
            )
        }),
{
}

/// A hook that checks plans a check of all staged files that it would format,
/// whatever is staged in part, and stages nothing.
pub proof fn checking_hooks_take_all_files<G: GitContext>(
    config: Config,
    git: &G,
    root: Seq<char>,
    texts: FileTexts,
    files: Seq<Seq<char>>,
    allow_partial_gjf: bool,
    year: nat,
    r: Result<Option<RunPlan>, RunError>,
)
    requires
        config.hook.mode is Check,
        is_hook_run(config, git, root, texts, files, allow_partial_gjf, year, r),
    ensures
        can_plan(config, root, texts) ==> (r matches Ok(plan) && (plan matches Some(p) && p.is_for(
            config,
            root,
            texts,
            files,
            false,
            year,
        ) && p.check && !p.restage && p.partial_gjf@.len() == 0)),
        !can_plan(config, root, texts) ==> (r matches Err(e) && is_plan_fault(
            config,
            root,
            texts,
            e,
        )),
{
    assert(is_hook_outcome(
        config,
        root,
        texts,
        files,
        StagingCheck::Safe,
        allow_partial_gjf,
        year,
        r,
    ));
    let d = choose|d: Result<HookFiles, RunError>| #[trigger]
        is_hook_decision(
            config,
            root,
            texts,
            files,
            StagingCheck::Safe,
            allow_partial_gjf,
            d,
        ) && match d {
            Ok(hf) => is_hook_plan(config, root, texts, hf, year, r),
            Err(e) => r == Err::<Option<RunPlan>, _>(e),
        };
    assert(d is Ok);
}

/// A hook that formats, and may not format files in the index alone, plans only
/// where none of the files is modified beyond what is staged, and then takes all
/// of them and stages them again.
pub proof fn formatting_hooks_need_whole_files<G: GitContext>(
    config: Config,
    git: &G,
    root: Seq<char>,
    texts: FileTexts,
    files: Seq<Seq<char>>,
    year: nat,
    r: Result<Option<RunPlan>, RunError>,
)
    requires
        !(config.hook.mode is Check),
        is_hook_run(config, git, root, texts, files, false, year, r),
        r is Ok,
    ensures
        r->Ok_0 matches Some(p) && p.is_for(config, root, texts, files, false, year) && !p.check
            && p.restage && p.partial_gjf@.len() == 0,
        files.len() > 0 ==> exists|unstaged: Result<Vec<String>, GitError>|
            #[trigger] call_ensures(G::unstaged_modified_files, (git,), unstaged) && unstaged is Ok
                && forall|i: int|
                0 <= i < files.len() ==> !fspath::holds_path(
                    chars::views((unstaged->Ok_0)@),
                    #[trigger] files[i],
                ),
{
    let staging = choose|staging: Result<StagingCheck, GitError>| #[trigger]
        answers_staging(git, files, staging) && match staging {
            Err(e) => r == Err::<Option<RunPlan>, _>(RunError::Git(e)),
            Ok(check) => is_hook_outcome(config, root, texts, files, check, false, year, r),
        };
    assert(staging is Ok);
    let check = staging->Ok_0;
    let d = choose|d: Result<HookFiles, RunError>| #[trigger]
        is_hook_decision(config, root, texts, files, check, false, d) && match d {
            Ok(hf) => is_hook_plan(config, root, texts, hf, year, r),
            Err(e) => r == Err::<Option<RunPlan>, _>(e),
        };
    assert(d is Ok);
    assert(check is Safe);
    if files.len() > 0 {
        assert(is_staging_answer(git, files, staging));
        let unstaged = choose|unstaged: Result<Vec<String>, GitError>| #[trigger]
            call_ensures(G::unstaged_modified_files, (git,), unstaged) && match unstaged {
                Ok(v) => staging matches Ok(c) && hook::is_staging_check(
                    files,
                    chars::views(v@),
                    c,
                ),
                Err(e) => staging matches Err(f) && f.message@
                    == "query unstaged-modified files: "@ + e.message@,
            };
        assert(unstaged is Ok);
        let v = chars::views((unstaged->Ok_0)@);
        hook::safe_iff_no_partial_file(files, v, check);
        assert forall|i: int| 0 <= i < files.len() implies !fspath::holds_path(
            v,
            #[trigger] files[i],
        ) by {
            assert(files.contains(files[i]));
        }
    }
}

/// Where files may be formatted in the index alone, scopes that cannot be used
/// are reported, and files staged in part that are no Java files of
/// google-java-format stop the hook, each of them named.
pub proof fn other_partial_files_stop_the_hook(
    config: Config,
    root: Seq<char>,
    texts: FileTexts,
    candidates: Seq<Seq<char>>,
    conflicts: Vec<String>,
    r: Result<HookFiles, RunError>,
    i: int,
)
    requires
        is_hook_decision(
            config,
            root,
            texts,
            candidates,
            StagingCheck::PartialStage { files: conflicts },
            true,
            r,
        ),
        0 <= i < conflicts@.len(),
    ensures
        config.gjf is Some && !config.scopes_build(root, texts) ==> (r matches Err(e)
            && config.is_scopes_fault(root, texts, e)),
        config.gjf is None ==> (r matches Err(RunError::PartialStaging { files, experimental })
            && experimental && chars::views(files@) == chars::views(conflicts@)),
        (config.gjf is None || config.scopes_build(root, texts)) && fspath::suffix(
            conflicts@[i]@,
        ) != Some("java"@) && (forall|k: int|
            0 <= k < conflicts@.len() && k != i ==> fspath::parts(#[trigger] conflicts@[k]@)
                != fspath::parts(conflicts@[i]@)) ==> r is Err,
{
    let all = chars::views(conflicts@);
    if config.gjf is None {
        let handled = choose|handled: Seq<Seq<char>>| #[trigger]
            is_partial_selection(config, root, texts, all, handled) && if without(
                all,
                handled,
            ).len() == 0 {
                r matches Ok(h) && chars::views(h.normal@) == without(candidates, handled)
                    && chars::views(h.partial_gjf@) == handled
            } else {
                r matches Err(RunError::PartialStaging { files, experimental }) && chars::views(
                    files@,
                ) == without(all, handled) && experimental
            };
        lemma_without_nothing(all, handled);
    }
    if let Ok(h) = r {
        hook_spares_partial_files(config, root, texts, candidates, conflicts, true, h, i);
        let p = chars::views(h.partial_gjf@);
        let k = choose|k: int|
            0 <= k < p.len() && fspath::parts(#[trigger] p[k]) == fspath::parts(conflicts@[i]@);
        assert(p.contains(p[k]));
        hook_formats_every_candidate(
            config,
            root,
            texts,
            candidates,
            StagingCheck::PartialStage { files: conflicts },
            true,
            r,
            p[k],
        );
        let j = choose|j: int| 0 <= j < all.len() && all[j] == p[k];
        assert(all[j] == conflicts@[j]@);
        assert(fspath::parts(conflicts@[j]@) == fspath::parts(conflicts@[i]@));
    }
}

proof fn lemma_without_nothing(files: Seq<Seq<char>>, list: Seq<Seq<char>>)
    requires
        list.len() == 0,
    ensures
        without(files, list) == files,
    decreases files.len(),
{
    if files.len() > 0 {
        lemma_without_nothing(files.drop_last(), list);
        assert(!fspath::holds_path(list, files.last()));
        assert(files.drop_last().push(files.last()) =~= files);
    } else {
        assert(files =~= Seq::<Seq<char>>::empty());
    }
}

} // verus!
