//! The configuration: what `.kempt.toml` may say and what it means.
//!
//! Paths that the configuration gives are taken from the repository root. The
//! text files that it points to come in as [`FileTexts`].

use crate::catalog;
use crate::catalog::Catalog;
use crate::catalog::CatalogFault;
use crate::chars;
use crate::fspath;
use crate::snapshot;
use crate::snapshot::FileState;
use crate::snapshot::FileTexts;
use crate::snapshot::Reading;
use crate::text;
use vstd::prelude::*;

verus! {

/// Name of the configuration file in the repository root.
pub const CONFIG_FILE: &'static str = ".kempt.toml";

/// Where a tool's binary comes from.
#[derive(Debug, PartialEq, Eq)]
pub enum ToolSource {
    /// This version, downloaded into the user's cache.
    Cached(String),
    /// A binary already on disk.
    Local(String),
}

/// Either a literal version or a reference to a version catalog.
#[derive(Debug, PartialEq, Eq)]
pub enum VersionSpec {
    Literal(String),
    Ref(VersionRef),
}

/// A reference to a version catalog.
#[derive(Debug, PartialEq, Eq)]
pub struct VersionRef {
    /// The catalog, relative to the repository root or absolute.
    pub file: String,
    /// The key under `[versions]`; the tool's name where there is none.
    pub key: Option<String>,
}

/// A list of glob patterns: given inline, or in a text file with one pattern per
/// line and `#` comments.
#[derive(Debug, PartialEq, Eq)]
pub enum GlobList {
    Inline(Vec<String>),
    FromFile(String),
}

/// A list of paths: given inline, or in a text file with one path per line and
/// `#` comments.
#[derive(Debug, PartialEq, Eq)]
pub enum PathList {
    Inline(Vec<String>),
    FromFile(String),
}

/// The path scope of a tool.
#[derive(Debug, PartialEq, Eq)]
pub struct ToolPaths {
    pub includes: Option<GlobList>,
    pub exclude: Option<GlobList>,
}

/// A path scope with defaults filled in and list files read.
#[derive(Debug, PartialEq, Eq)]
pub struct ResolvedPaths {
    pub includes: Vec<String>,
    pub exclude: Vec<String>,
}

#[derive(Debug, PartialEq, Eq)]
pub struct Ktfmt {
    /// Version to download. Excludes `path`.
    pub version: Option<VersionSpec>,
    /// A jar on disk. Excludes `version`.
    pub path: Option<String>,
    pub style: KtfmtStyle,
    pub license_header: Option<ToolLicenseHeader>,
    /// Defaults to `**/*.kt` and `**/*.kts`.
    pub paths: Option<ToolPaths>,
}

#[derive(Debug, Clone, Copy, PartialEq, Eq, Structural)]
pub enum KtfmtStyle {
    Google,
    Kotlinlang,
    Meta,
}

#[derive(Debug, PartialEq, Eq)]
pub struct Gjf {
    /// Version to download. Excludes `path`.
    pub version: Option<VersionSpec>,
    /// A binary on disk: a `.jar` runs on the JVM, anything else by itself.
    /// Excludes `version`.
    pub path: Option<String>,
    pub style: GjfStyle,
    pub license_header: Option<ToolLicenseHeader>,
    /// Whether to use the native executable rather than the jar. Does not
    /// matter where `path` is set.
    pub native: NativeMode,
    /// Defaults to `**/*.java`.
    pub paths: Option<ToolPaths>,
}

#[derive(Debug, Clone, Copy, PartialEq, Eq, Structural)]
pub enum GjfStyle {
    Google,
    Aosp,
}

#[derive(Debug, Clone, Copy, PartialEq, Eq, Structural)]
pub enum NativeMode {
    /// Native where there is such a build for platform and version.
    Auto,
    /// Native, or an error.
    Always,
    /// The jar.
    Never,
}

#[derive(Debug, PartialEq, Eq)]
pub struct Rustfmt {
    pub license_header: Option<ToolLicenseHeader>,
    /// Defaults to `**/*.rs`.
    pub paths: Option<ToolPaths>,
}

#[derive(Debug, PartialEq, Eq)]
pub struct Detekt {
    /// Version to download. Excludes `path`.
    pub version: Option<VersionSpec>,
    /// A jar or executable on disk. Excludes `version`.
    pub path: Option<String>,
    pub configs: Vec<String>,
    pub config_resources: Vec<String>,
    pub baseline: Option<String>,
    pub build_upon_default_config: bool,
    pub plugins: Vec<String>,
    pub reports: Vec<String>,
    pub paths: Option<ToolPaths>,
    pub classpath: Option<PathList>,
    pub jvm_target: Option<String>,
    pub args: Vec<String>,
    pub targets: Vec<DetektTarget>,
}

#[derive(Debug, PartialEq, Eq)]
pub struct DetektTarget {
    pub name: String,
    pub configs: Option<Vec<String>>,
    pub config_resources: Option<Vec<String>>,
    pub baseline: Option<String>,
    pub build_upon_default_config: Option<bool>,
    pub plugins: Option<Vec<String>>,
    pub reports: Option<Vec<String>>,
    pub paths: Option<ToolPaths>,
    pub classpath: Option<PathList>,
    pub jvm_target: Option<String>,
    pub args: Vec<String>,
}

#[derive(Debug, PartialEq, Eq)]
pub struct ResolvedDetektTarget {
    pub name: String,
    pub configs: Vec<String>,
    pub config_resources: Vec<String>,
    pub baseline: Option<String>,
    pub build_upon_default_config: bool,
    pub plugins: Vec<String>,
    pub reports: Vec<String>,
    pub paths: ResolvedPaths,
    pub classpath: Vec<String>,
    pub jvm_target: Option<String>,
    pub args: Vec<String>,
}

#[derive(Debug, PartialEq, Eq)]
pub struct LicenseHeader {
    pub file: String,
}

/// A tool's own header settings: `file` goes before the global one, `excludes`
/// is a list file that applies to the tool's languages only.
#[derive(Debug, PartialEq, Eq)]
pub struct ToolLicenseHeader {
    pub file: Option<String>,
    pub excludes: Option<String>,
}

/// The header settings that apply to a tool's languages.
#[derive(Debug, PartialEq, Eq)]
pub struct ResolvedHeader {
    pub file: String,
    pub excludes: Option<String>,
}

/// The path filter that applies before any tool's scope.
#[derive(Debug, PartialEq, Eq)]
pub struct Paths {
    pub exclude: GlobList,
}

/// Whitespace normalization; both passes are on by default.
#[derive(Debug, PartialEq, Eq)]
pub struct Whitespace {
    pub strip_trailing: bool,
    /// A text that is not empty ends with exactly one line feed.
    pub final_newline: bool,
    /// Defaults to all source files that are known.
    pub paths: Option<ToolPaths>,
}

#[derive(Debug, PartialEq, Eq)]
pub struct Hook {
    pub mode: HookMode,
}

#[derive(Debug, Clone, Copy, PartialEq, Eq, Structural)]
pub enum HookMode {
    Format,
    Check,
}

#[derive(Debug, PartialEq, Eq)]
pub struct Config {
    pub ktfmt: Option<Ktfmt>,
    pub gjf: Option<Gjf>,
    pub detekt: Option<Detekt>,
    pub rustfmt: Option<Rustfmt>,
    pub license_header: Option<LicenseHeader>,
    pub paths: Paths,
    pub whitespace: Whitespace,
    pub hook: Hook,
}

/// What is wrong with a configuration or with a file that it points to.
#[derive(Debug, PartialEq, Eq)]
pub enum ConfigError {
    ReadGlobFile { path: String, cause: String },
    ReadPathList { path: String, cause: String },
    ClasspathWithoutJvmTarget { target: String },
    OwnedOption { arg: String },
    BothSources { tool: String },
    NoSource { tool: String },
    ReadCatalog { path: String, cause: String },
    Catalog { fault: CatalogFault, key: String, path: String, cause: String },
}

impl ConfigError {
    /// What the error says.
    pub open spec fn text(self) -> Seq<char> {
        match self {
            ConfigError::ReadGlobFile { path, cause } => "read glob file "@ + path@ + ": "@
                + cause@,
            ConfigError::ReadPathList { path, cause } => "read path list "@ + path@ + ": "@
                + cause@,
            ConfigError::ClasspathWithoutJvmTarget { target } => "[detekt] target `"@ + target@
                + "` sets `classpath` but not `jvm-target`"@,
            ConfigError::OwnedOption { arg } => "[detekt].args cannot set Kempt-owned option `"@
                + arg@ + "`"@,
            ConfigError::BothSources { tool } => "["@ + tool@
                + "] sets both `version` and `path`; pick one"@,
            ConfigError::NoSource { tool } => "["@ + tool@
                + "] must set either `version` or `path`"@,
            ConfigError::ReadCatalog { path, cause } => "read catalog "@ + path@ + ": "@ + cause@,
            ConfigError::Catalog { fault, key, path, cause } => match fault {
                CatalogFault::NotToml => "parse catalog "@ + path@ + ": "@ + cause@,
                CatalogFault::NotTable => "catalog is not a TOML table: "@ + path@,
                CatalogFault::VersionsNotTable => "[versions] is not a table in "@ + path@,
                CatalogFault::VersionsMissing => "[versions] table not found in "@ + path@,
                CatalogFault::Rich => "catalog key `"@ + key@ + "` in "@ + path@
                    + " is a structured (rich) Gradle version; kempt only supports literal version strings"@,
                CatalogFault::KeyMissing => "catalog key `"@ + key@
                    + "` not found under [versions] in "@ + path@,
            },
        }
    }

    /// What the error says.
    pub fn message(&self) -> (r: String)
        ensures
            r@ == self.text(),
    {
        match self {
            ConfigError::ReadGlobFile { path, cause } => text::cat4(
                "read glob file ",
                path,
                ": ",
                cause,
            ),
            ConfigError::ReadPathList { path, cause } => text::cat4(
                "read path list ",
                path,
                ": ",
                cause,
            ),
            ConfigError::ClasspathWithoutJvmTarget { target } => text::cat3(
                "[detekt] target `",
                target,
                "` sets `classpath` but not `jvm-target`",
            ),
            ConfigError::OwnedOption { arg } => text::cat3(
                "[detekt].args cannot set Kempt-owned option `",
                arg,
                "`",
            ),
            ConfigError::BothSources { tool } => text::cat3(
                "[",
                tool,
                "] sets both `version` and `path`; pick one",
            ),
            ConfigError::NoSource { tool } => text::cat3(
                "[",
                tool,
                "] must set either `version` or `path`",
            ),
            ConfigError::ReadCatalog { path, cause } => text::cat4(
                "read catalog ",
                path,
                ": ",
                cause,
            ),
            ConfigError::Catalog { fault, key, path, cause } => match fault {
                CatalogFault::NotToml => text::cat4("parse catalog ", path, ": ", cause),
                CatalogFault::NotTable => text::cat2("catalog is not a TOML table: ", path),
                CatalogFault::VersionsNotTable => text::cat2(
                    "[versions] is not a table in ",
                    path,
                ),
                CatalogFault::VersionsMissing => text::cat2(
                    "[versions] table not found in ",
                    path,
                ),
                CatalogFault::Rich => {
                    let mut s = text::cat4("catalog key `", key, "` in ", path);
                    s.push_str(
                        " is a structured (rich) Gradle version; kempt only supports literal version strings",
                    );
                    s
                },
                CatalogFault::KeyMissing => text::cat4(
                    "catalog key `",
                    key,
                    "` not found under [versions] in ",
                    path,
                ),
            },
        }
    }
}

/// Each of the paths, taken from the root.
pub open spec fn joined_all(root: Seq<char>, paths: Seq<Seq<char>>) -> Seq<Seq<char>> {
    paths.map_values(|p: Seq<char>| fspath::joined(root, p))
}

/// The path, taken from the repository root.
fn resolve_path(repo_root: &str, path: &str) -> (r: String)
    ensures
        r@ == fspath::joined(repo_root@, path@),
{
    fspath::join(repo_root, path)
}

/// The paths, each taken from the repository root.
fn resolve_paths(repo_root: &str, paths: &Vec<String>) -> (r: Vec<String>)
    ensures
        chars::views(r@) == joined_all(repo_root@, chars::views(paths@)),
{
    let ghost all = chars::views(paths@);
    let mut r: Vec<String> = Vec::new();
    let mut i: usize = 0;
    while i < paths.len()
        invariant
            i <= paths.len(),
            all == chars::views(paths@),
            chars::views(r@) =~= joined_all(repo_root@, all.take(i as int)),
        decreases paths.len() - i,
    {
        let ghost before = chars::views(r@);
        let p = resolve_path(repo_root, &paths[i]);
        assert(all[i as int] == paths@[i as int]@);
        r.push(p);
        assert(chars::views(r@) =~= before.push(p@));
        assert(joined_all(repo_root@, all.take(i + 1)) =~= joined_all(
            repo_root@,
            all.take(i as int),
        ).push(p@));
        i += 1;
    }
    assert(all.take(i as int) =~= all);
    r
}

impl GlobList {
    /// The patterns; nothing where the list file has no text.
    pub open spec fn patterns(self, root: Seq<char>, files: FileTexts) -> Option<Seq<Seq<char>>> {
        match self {
            GlobList::Inline(v) => Some(chars::views(v@)),
            GlobList::FromFile(p) => match files.at(fspath::joined(root, p@)) {
                Reading::Text(t) => Some(snapshot::entry_lines(chars::lines(t))),
                _ => None,
            },
        }
    }

    /// The error is that of this list, whose file has no text.
    pub open spec fn unread(self, root: Seq<char>, files: FileTexts, e: ConfigError) -> bool {
        self matches GlobList::FromFile(p) && (e matches ConfigError::ReadGlobFile { path, cause }
            && path@ == fspath::joined(root, p@) && cause@ == files.at(path@).reason())
    }

    /// The patterns as a flat list.
    pub fn resolve(&self, repo_root: &str, files: &FileTexts) -> (r: Result<
        Vec<String>,
        ConfigError,
    >)
        ensures
            match r {
                Ok(v) => self.patterns(repo_root@, *files) == Some(chars::views(v@)),
                Err(e) => self.patterns(repo_root@, *files) is None && self.unread(
                    repo_root@,
                    *files,
                    e,
                ),
            },
    {
        match self {
            GlobList::Inline(v) => {
                let c = v.clone();
                assert(chars::views(c@) =~= chars::views(v@));
                Ok(c)
            },
            GlobList::FromFile(p) => load_glob_file(repo_root, p, files),
        }
    }
}

fn load_glob_file(repo_root: &str, p: &str, files: &FileTexts) -> (r: Result<
    Vec<String>,
    ConfigError,
>)
    ensures
        match r {
            Ok(v) => files.at(fspath::joined(repo_root@, p@)) matches Reading::Text(t)
                && chars::views(v@) == snapshot::entry_lines(chars::lines(t)),
            Err(e) => !(files.at(fspath::joined(repo_root@, p@)) is Text)
                && (e matches ConfigError::ReadGlobFile { path, cause } && path@ == fspath::joined(
                repo_root@,
                p@,
            ) && cause@ == files.at(path@).reason()),
        },
{
    let path = resolve_path(repo_root, p);
    match files.get(&path) {
        FileState::Text(t) => Ok(snapshot::list_entries(&t)),
        other => {
            let cause = snapshot::why_no_text(&other);
            Err(ConfigError::ReadGlobFile { path, cause })
        },
    }
}

impl PathList {
    /// The paths; nothing where the list file has no text.
    pub open spec fn listed(self, root: Seq<char>, files: FileTexts) -> Option<Seq<Seq<char>>> {
        match self {
            PathList::Inline(v) => Some(joined_all(root, chars::views(v@))),
            PathList::FromFile(p) => match files.at(fspath::joined(root, p@)) {
                Reading::Text(t) => Some(
                    joined_all(root, snapshot::entry_lines(chars::lines(t))),
                ),
                _ => None,
            },
        }
    }

    /// The paths as a flat list, each taken from the repository root.
    pub fn resolve(&self, repo_root: &str, files: &FileTexts) -> (r: Result<
        Vec<String>,
        ConfigError,
    >)
        ensures
            match r {
                Ok(v) => self.listed(repo_root@, *files) == Some(chars::views(v@)),
                Err(e) => self.listed(repo_root@, *files) is None
                    && (*self matches PathList::FromFile(p)
                    && (e matches ConfigError::ReadPathList { path, cause } && path@
                    == fspath::joined(repo_root@, p@) && cause@ == files.at(path@).reason())),
            },
    {
        match self {
            PathList::Inline(v) => Ok(resolve_paths(repo_root, v)),
            PathList::FromFile(p) => {
                let path = resolve_path(repo_root, p);
                match files.get(&path) {
                    FileState::Text(t) => {
                        let entries = snapshot::list_entries(&t);
                        Ok(resolve_paths(repo_root, &entries))
                    },
                    other => {
                        let cause = snapshot::why_no_text(&other);
                        Err(ConfigError::ReadPathList { path, cause })
                    },
                }
            },
        }
    }
}

/// The patterns of an optional list, or the default.
pub open spec fn patterns_or(
    list: Option<GlobList>,
    default: Seq<Seq<char>>,
    root: Seq<char>,
    files: FileTexts,
) -> Option<Seq<Seq<char>>> {
    match list {
        Some(g) => g.patterns(root, files),
        None => Some(default),
    }
}

impl Default for ToolPaths {
    fn default() -> (r: Self)
        ensures
            r == (ToolPaths { includes: None, exclude: None }),
    {
        ToolPaths { includes: None, exclude: None }
    }
}

impl ToolPaths {
    /// The include and exclude patterns with defaults filled in; nothing where
    /// a list file has no text.
    pub open spec fn scope(
        self,
        root: Seq<char>,
        files: FileTexts,
        default_includes: Seq<Seq<char>>,
        default_exclude: Seq<Seq<char>>,
    ) -> Option<(Seq<Seq<char>>, Seq<Seq<char>>)> {
        match patterns_or(self.includes, default_includes, root, files) {
            None => None,
            Some(i) => match patterns_or(self.exclude, default_exclude, root, files) {
                None => None,
                Some(e) => Some((i, e)),
            },
        }
    }

    /// The error is that of the first list whose file has no text.
    pub open spec fn unread(self, root: Seq<char>, files: FileTexts, e: ConfigError) -> bool {
        if self.includes is Some && self.includes->0.patterns(root, files) is None {
            self.includes->0.unread(root, files, e)
        } else {
            self.exclude is Some && self.exclude->0.patterns(root, files) is None
                && self.exclude->0.unread(root, files, e)
        }
    }

    /// Fills in defaults and reads list files.
    pub fn resolve_with_defaults(
        &self,
        repo_root: &str,
        files: &FileTexts,
        default_includes: Vec<String>,
        default_exclude: Vec<String>,
    ) -> (r: Result<ResolvedPaths, ConfigError>)
        ensures
            match r {
                Ok(rp) => self.scope(
                    repo_root@,
                    *files,
                    chars::views(default_includes@),
                    chars::views(default_exclude@),
                ) == Some((chars::views(rp.includes@), chars::views(rp.exclude@))),
                Err(e) => self.scope(
                    repo_root@,
                    *files,
                    chars::views(default_includes@),
                    chars::views(default_exclude@),
                ) is None && self.unread(repo_root@, *files, e),
            },
    {
        let includes = match &self.includes {
            Some(g) => match g.resolve(repo_root, files) {
                Ok(v) => v,
                Err(e) => {
                    return Err(e);
                },
            },
            None => default_includes,
        };
        let exclude = match &self.exclude {
            Some(g) => match g.resolve(repo_root, files) {
                Ok(v) => v,
                Err(e) => {
                    return Err(e);
                },
            },
            None => default_exclude,
        };
        Ok(ResolvedPaths { includes, exclude })
    }
}

/// A tool's scope, the default one where it sets none.
pub open spec fn scope_or_default(
    paths: Option<ToolPaths>,
    root: Seq<char>,
    files: FileTexts,
    default_includes: Seq<Seq<char>>,
) -> Option<(Seq<Seq<char>>, Seq<Seq<char>>)> {
    match paths {
        Some(p) => p.scope(root, files, default_includes, Seq::empty()),
        None => Some((default_includes, Seq::empty())),
    }
}

fn resolve_scope(
    paths: &Option<ToolPaths>,
    repo_root: &str,
    files: &FileTexts,
    default_includes: Vec<String>,
) -> (r: Result<ResolvedPaths, ConfigError>)
    ensures
        match r {
            Ok(rp) => scope_or_default(
                *paths,
                repo_root@,
                *files,
                chars::views(default_includes@),
            ) == Some((chars::views(rp.includes@), chars::views(rp.exclude@))),
            Err(e) => scope_or_default(
                *paths,
                repo_root@,
                *files,
                chars::views(default_includes@),
            ) is None && (*paths matches Some(p) && p.unread(repo_root@, *files, e)),
        },
{
    let none: Vec<String> = Vec::new();
    assert(chars::views(none@) =~= Seq::empty());
    match paths {
        Some(p) => p.resolve_with_defaults(repo_root, files, default_includes, none),
        None => Ok(ResolvedPaths { includes: default_includes, exclude: none }),
    }
}

/// Patterns of Kotlin sources and scripts.
pub open spec fn kotlin_patterns() -> Seq<Seq<char>> {
    seq!["**/*.kt"@, "**/*.kts"@]
}

/// Patterns of Java sources.
pub open spec fn java_patterns() -> Seq<Seq<char>> {
    seq!["**/*.java"@]
}

/// Patterns of Rust sources.
pub open spec fn rust_patterns() -> Seq<Seq<char>> {
    seq!["**/*.rs"@]
}

/// Patterns of all sources that are known.
pub open spec fn source_patterns() -> Seq<Seq<char>> {
    seq!["**/*.kt"@, "**/*.kts"@, "**/*.java"@, "**/*.rs"@]
}

fn default_kotlin() -> (r: Vec<String>)
    ensures
        chars::views(r@) == kotlin_patterns(),
{
    let mut r: Vec<String> = Vec::new();
    r.push("**/*.kt".to_owned());
    r.push("**/*.kts".to_owned());
    assert(chars::views(r@) =~= kotlin_patterns());
    r
}

fn default_java() -> (r: Vec<String>)
    ensures
        chars::views(r@) == java_patterns(),
{
    let mut r: Vec<String> = Vec::new();
    r.push("**/*.java".to_owned());
    assert(chars::views(r@) =~= java_patterns());
    r
}

fn default_rust() -> (r: Vec<String>)
    ensures
        chars::views(r@) == rust_patterns(),
{
    let mut r: Vec<String> = Vec::new();
    r.push("**/*.rs".to_owned());
    assert(chars::views(r@) =~= rust_patterns());
    r
}

fn default_sources() -> (r: Vec<String>)
    ensures
        chars::views(r@) == source_patterns(),
{
    let mut r: Vec<String> = Vec::new();
    r.push("**/*.kt".to_owned());
    r.push("**/*.kts".to_owned());
    r.push("**/*.java".to_owned());
    r.push("**/*.rs".to_owned());
    assert(chars::views(r@) =~= source_patterns());
    r
}

impl VersionSpec {
    /// The version. A reference to a catalog has to be resolved before; see
    /// [`Config::resolve_catalogs`].
    pub fn as_literal(&self) -> (r: &str)
        requires
            *self is Literal,
        ensures
            *self matches VersionSpec::Literal(s) && r@ == s@,
    {
        match self {
            VersionSpec::Literal(s) => s.as_str(),
            VersionSpec::Ref(_) => "",
        }
    }
}

/// A version, where there is one, is a literal one.
pub open spec fn is_literal(version: Option<VersionSpec>) -> bool {
    version is None || version->0 is Literal
}

/// A tool with these settings can be located: it has a path or a literal
/// version.
pub open spec fn locatable(version: Option<VersionSpec>, path: Option<String>) -> bool {
    path is Some || version matches Some(VersionSpec::Literal(_))
}

/// Where the tool with these settings comes from.
pub open spec fn is_source_of(
    version: Option<VersionSpec>,
    path: Option<String>,
    root: Seq<char>,
    source: ToolSource,
) -> bool {
    match path {
        Some(p) => source matches ToolSource::Local(l) && l@ == fspath::joined(root, p@),
        None => version matches Some(VersionSpec::Literal(v)) && (
        source matches ToolSource::Cached(c) && c@ == v@),
    }
}

fn resolve_source(version: &Option<VersionSpec>, path: &Option<String>, repo_root: &str) -> (r:
    ToolSource)
    requires
        locatable(*version, *path),
    ensures
        is_source_of(*version, *path, repo_root@, r),
{
    match path {
        Some(p) => ToolSource::Local(resolve_path(repo_root, p)),
        None => match version {
            Some(v) => ToolSource::Cached(v.as_literal().to_owned()),
            None => ToolSource::Cached(String::new()),
        },
    }
}

impl Ktfmt {
    /// The files that ktfmt takes.
    pub fn resolve_paths(&self, repo_root: &str, files: &FileTexts) -> (r: Result<
        ResolvedPaths,
        ConfigError,
    >)
        ensures
            match r {
                Ok(rp) => scope_or_default(self.paths, repo_root@, *files, kotlin_patterns())
                    == Some((chars::views(rp.includes@), chars::views(rp.exclude@))),
                Err(e) => scope_or_default(self.paths, repo_root@, *files, kotlin_patterns())
                    is None && (self.paths matches Some(p) && p.unread(repo_root@, *files, e)),
            },
    {
        resolve_scope(&self.paths, repo_root, files, default_kotlin())
    }

    /// Where ktfmt comes from.
    pub fn source(&self, repo_root: &str) -> (r: ToolSource)
        requires
            locatable(self.version, self.path),
        ensures
            is_source_of(self.version, self.path, repo_root@, r),
    {
        resolve_source(&self.version, &self.path, repo_root)
    }
}

impl Gjf {
    /// The files that google-java-format takes.
    pub fn resolve_paths(&self, repo_root: &str, files: &FileTexts) -> (r: Result<
        ResolvedPaths,
        ConfigError,
    >)
        ensures
            match r {
                Ok(rp) => scope_or_default(self.paths, repo_root@, *files, java_patterns()) == Some(
                    (chars::views(rp.includes@), chars::views(rp.exclude@)),
                ),
                Err(e) => scope_or_default(self.paths, repo_root@, *files, java_patterns()) is None
                    && (self.paths matches Some(p) && p.unread(repo_root@, *files, e)),
            },
    {
        resolve_scope(&self.paths, repo_root, files, default_java())
    }

    /// Where google-java-format comes from.
    pub fn source(&self, repo_root: &str) -> (r: ToolSource)
        requires
            locatable(self.version, self.path),
        ensures
            is_source_of(self.version, self.path, repo_root@, r),
    {
        resolve_source(&self.version, &self.path, repo_root)
    }
}

impl Default for KtfmtStyle {
    fn default() -> (r: Self)
        ensures
            r == KtfmtStyle::Google,
    {
        KtfmtStyle::Google
    }
}

impl Default for GjfStyle {
    fn default() -> (r: Self)
        ensures
            r == GjfStyle::Google,
    {
        GjfStyle::Google
    }
}

impl Default for NativeMode {
    fn default() -> (r: Self)
        ensures
            r == NativeMode::Auto,
    {
        NativeMode::Auto
    }
}

impl Default for HookMode {
    fn default() -> (r: Self)
        ensures
            r == HookMode::Format,
    {
        HookMode::Format
    }
}

impl Default for Rustfmt {
    fn default() -> (r: Self)
        ensures
            r == (Rustfmt { license_header: None, paths: None }),
    {
        Rustfmt { license_header: None, paths: None }
    }
}

impl Rustfmt {
    /// The files that rustfmt takes.
    pub fn resolve_paths(&self, repo_root: &str, files: &FileTexts) -> (r: Result<
        ResolvedPaths,
        ConfigError,
    >)
        ensures
            match r {
                Ok(rp) => scope_or_default(self.paths, repo_root@, *files, rust_patterns()) == Some(
                    (chars::views(rp.includes@), chars::views(rp.exclude@)),
                ),
                Err(e) => scope_or_default(self.paths, repo_root@, *files, rust_patterns()) is None
                    && (self.paths matches Some(p) && p.unread(repo_root@, *files, e)),
            },
    {
        resolve_scope(&self.paths, repo_root, files, default_rust())
    }
}

impl Default for Whitespace {
    fn default() -> (r: Self)
        ensures
            r == (Whitespace { strip_trailing: true, final_newline: true, paths: None }),
    {
        Whitespace { strip_trailing: true, final_newline: true, paths: None }
    }
}

impl Whitespace {
    /// The files that the whitespace passes take.
    pub fn resolve_paths(&self, repo_root: &str, files: &FileTexts) -> (r: Result<
        ResolvedPaths,
        ConfigError,
    >)
        ensures
            match r {
                Ok(rp) => scope_or_default(self.paths, repo_root@, *files, source_patterns())
                    == Some((chars::views(rp.includes@), chars::views(rp.exclude@))),
                Err(e) => scope_or_default(self.paths, repo_root@, *files, source_patterns())
                    is None && (self.paths matches Some(p) && p.unread(repo_root@, *files, e)),
            },
    {
        resolve_scope(&self.paths, repo_root, files, default_sources())
    }

    /// Whether at least one pass is on.
    pub fn any_enabled(&self) -> (r: bool)
        ensures
            r == (self.strip_trailing || self.final_newline),
    {
        self.strip_trailing || self.final_newline
    }
}

/// Patterns that are left out unless the configuration says otherwise.
pub open spec fn default_excludes() -> Seq<Seq<char>> {
    seq!["**/build/**"@, "**/target/**"@]
}

impl Default for Paths {
    fn default() -> (r: Self)
        ensures
            r.exclude matches GlobList::Inline(v) && chars::views(v@) == default_excludes(),
    {
        let mut v: Vec<String> = Vec::new();
        v.push("**/build/**".to_owned());
        v.push("**/target/**".to_owned());
        assert(chars::views(v@) =~= default_excludes());
        Paths { exclude: GlobList::Inline(v) }
    }
}

impl Default for Hook {
    fn default() -> (r: Self)
        ensures
            r.mode == HookMode::Format,
    {
        Hook { mode: HookMode::Format }
    }
}

impl Default for Config {
    fn default() -> (r: Self)
        ensures
            r.ktfmt is None,
            r.gjf is None,
            r.detekt is None,
            r.rustfmt is None,
            r.license_header is None,
            r.paths.exclude matches GlobList::Inline(v) && chars::views(v@) == default_excludes(),
            r.whitespace == (Whitespace { strip_trailing: true, final_newline: true, paths: None }),
            r.hook.mode == HookMode::Format,
    {
        Config {
            ktfmt: None,
            gjf: None,
            detekt: None,
            rustfmt: None,
            license_header: None,
            paths: Paths::default(),
            whitespace: Whitespace::default(),
            hook: Hook::default(),
        }
    }
}

/// Options of detekt that are set from the configuration and cannot be given as
/// arguments.
pub open spec fn owned_options() -> Seq<Seq<char>> {
    seq![
        "--input"@,
        "-i"@,
        "--config"@,
        "-c"@,
        "--config-resource"@,
        "-cr"@,
        "--classpath"@,
        "-cp"@,
        "--plugins"@,
        "-p"@,
        "--baseline"@,
        "-b"@,
        "--report"@,
        "-r"@,
        "--base-path"@,
        "-bp"@,
        "--jvm-target"@,
        "--analysis-mode"@,
        "--auto-correct"@,
        "-ac"@,
        "--create-baseline"@,
        "-cb"@,
    ]
}

/// The argument sets the option: it is the option, or a long option with `=`.
pub open spec fn sets_option(arg: Seq<char>, option: Seq<char>) -> bool {
    arg == option || (chars::starts_with(option, "--"@) && chars::starts_with(arg, option + "="@))
}

/// The argument sets an option that cannot be given as an argument.
pub open spec fn is_owned(arg: Seq<char>) -> bool {
    exists|i: int|
        0 <= i < owned_options().len() && sets_option(arg, #[trigger] owned_options()[i])
}

/// The first argument that sets an option that cannot be given as one.
pub open spec fn first_owned(args: Seq<Seq<char>>) -> Option<Seq<char>>
    decreases args.len(),
{
    if args.len() == 0 {
        None
    } else if is_owned(args[0]) {
        Some(args[0])
    } else {
        first_owned(args.skip(1))
    }
}

fn owned_list() -> (r: Vec<&'static str>)
    ensures
        r@.len() == owned_options().len(),
        forall|i: int| 0 <= i < r@.len() ==> (#[trigger] r@[i])@ == owned_options()[i],
{
    vec![
        "--input",
        "-i",
        "--config",
        "-c",
        "--config-resource",
        "-cr",
        "--classpath",
        "-cp",
        "--plugins",
        "-p",
        "--baseline",
        "-b",
        "--report",
        "-r",
        "--base-path",
        "-bp",
        "--jvm-target",
        "--analysis-mode",
        "--auto-correct",
        "-ac",
        "--create-baseline",
        "-cb",
    ]
}

fn sets_owned_option(arg: &str, owned: &Vec<&'static str>) -> (r: bool)
    requires
        owned@.len() == owned_options().len(),
        forall|i: int| 0 <= i < owned@.len() ==> (#[trigger] owned@[i])@ == owned_options()[i],
    ensures
        r == is_owned(arg@),
{
    let mut i: usize = 0;
    while i < owned.len()
        invariant
            i <= owned.len(),
            owned@.len() == owned_options().len(),
            forall|i: int| 0 <= i < owned@.len() ==> (#[trigger] owned@[i])@ == owned_options()[i],
            forall|j: int| 0 <= j < i ==> !sets_option(arg@, #[trigger] owned_options()[j]),
        decreases owned.len() - i,
    {
        let option = owned[i];
        assert(option@ == owned_options()[i as int]);
        if text::same(arg, option) || (text::starts_with(option, "--") && text::starts_with(
            arg,
            &text::cat2(option, "="),
        )) {
            return true;
        }
        i += 1;
    }
    false
}

/// Rejects arguments for detekt that set what the configuration sets.
pub fn validate_detekt_args(args: &Vec<String>) -> (r: Result<(), ConfigError>)
    ensures
        match first_owned(chars::views(args@)) {
            None => r is Ok,
            Some(a) => r matches Err(ConfigError::OwnedOption { arg }) && arg@ == a,
        },
{
    let ghost all = chars::views(args@);
    let owned = owned_list();
    let mut i: usize = 0;
    assert(all.skip(0) =~= all);
    while i < args.len()
        invariant
            i <= args.len(),
            all == chars::views(args@),
            owned@.len() == owned_options().len(),
            forall|i: int| 0 <= i < owned@.len() ==> (#[trigger] owned@[i])@ == owned_options()[i],
            first_owned(all) == first_owned(all.skip(i as int)),
        decreases args.len() - i,
    {
        assert(all.skip(i as int)[0] == args@[i as int]@);
        assert(all.skip(i as int).skip(1) =~= all.skip(i + 1));
        if sets_owned_option(&args[i], &owned) {
            return Err(ConfigError::OwnedOption { arg: args[i].clone() });
        }
        i += 1;
    }
    Ok(())
}

/// The first such argument of two lists, one after the other.
proof fn lemma_first_owned_append(a: Seq<Seq<char>>, b: Seq<Seq<char>>)
    ensures
        first_owned(a + b) == match first_owned(a) {
            Some(x) => Some(x),
            None => first_owned(b),
        },
    decreases a.len(),
{
    if a.len() == 0 {
        assert(a + b =~= b);
    } else {
        assert((a + b).skip(1) =~= a.skip(1) + b);
        lemma_first_owned_append(a.skip(1), b);
    }
}

/// The name of a target; `default` where there is none.
pub open spec fn target_name(target: Option<&DetektTarget>) -> Seq<char> {
    match target {
        Some(t) => t.name@,
        None => "default"@,
    }
}

/// The list that a target sets, or that of the section.
pub open spec fn own_or<T>(own: Option<T>, section: T) -> T {
    match own {
        Some(x) => x,
        None => section,
    }
}

/// The setting that a target has, or that of the section.
pub open spec fn own_or_opt<T>(own: Option<T>, section: Option<T>) -> Option<T> {
    match own {
        Some(x) => Some(x),
        None => section,
    }
}

impl Detekt {
    /// The path scope of a target.
    pub open spec fn target_paths(self, target: Option<&DetektTarget>) -> Option<ToolPaths> {
        match target {
            Some(t) => own_or_opt(t.paths, self.paths),
            None => self.paths,
        }
    }

    /// The classpath setting of a target.
    pub open spec fn target_classpath(self, target: Option<&DetektTarget>) -> Option<PathList> {
        match target {
            Some(t) => own_or_opt(t.classpath, self.classpath),
            None => self.classpath,
        }
    }

    /// The classpath of a target; nothing where its list file has no text.
    pub open spec fn target_classpath_entries(
        self,
        target: Option<&DetektTarget>,
        root: Seq<char>,
        files: FileTexts,
    ) -> Option<Seq<Seq<char>>> {
        match self.target_classpath(target) {
            Some(c) => c.listed(root, files),
            None => Some(Seq::empty()),
        }
    }

    /// The JVM target of a target.
    pub open spec fn target_jvm_target(self, target: Option<&DetektTarget>) -> Option<String> {
        match target {
            Some(t) => own_or_opt(t.jvm_target, self.jvm_target),
            None => self.jvm_target,
        }
    }

    /// The arguments of the section, then those of the target.
    pub open spec fn target_args(self, target: Option<&DetektTarget>) -> Seq<Seq<char>> {
        match target {
            Some(t) => chars::views(self.args@) + chars::views(t.args@),
            None => chars::views(self.args@),
        }
    }

    /// The settings of a target are complete: its list files have text, its
    /// classpath comes with a JVM target, and its arguments are free.
    pub open spec fn resolves(
        self,
        target: Option<&DetektTarget>,
        root: Seq<char>,
        files: FileTexts,
    ) -> bool {
        &&& scope_or_default(self.target_paths(target), root, files, kotlin_patterns()) is Some
        &&& self.target_classpath_entries(target, root, files) matches Some(cp) && (cp.len() == 0
            || self.target_jvm_target(target) is Some)
        &&& first_owned(self.target_args(target)) is None
    }

    /// `r` holds the settings of the target, with those of the section where it
    /// has none of its own, and its paths taken from the repository root.
    pub open spec fn is_resolution(
        self,
        target: Option<&DetektTarget>,
        root: Seq<char>,
        files: FileTexts,
        r: ResolvedDetektTarget,
    ) -> bool {
        &&& r.name@ == target_name(target)
        &&& chars::views(r.configs@) == joined_all(
            root,
            chars::views(
                match target {
                    Some(t) => own_or(t.configs, self.configs)@,
                    None => self.configs@,
                },
            ),
        )
        &&& chars::views(r.config_resources@) == chars::views(
            match target {
                Some(t) => own_or(t.config_resources, self.config_resources)@,
                None => self.config_resources@,
            },
        )
        &&& chars::opt_view(r.baseline) == match (match target {
            Some(t) => own_or_opt(t.baseline, self.baseline),
            None => self.baseline,
        }) {
            Some(b) => Some(fspath::joined(root, b@)),
            None => None,
        }
        &&& r.build_upon_default_config == match target {
            Some(t) => own_or(t.build_upon_default_config, self.build_upon_default_config),
            None => self.build_upon_default_config,
        }
        &&& chars::views(r.plugins@) == joined_all(
            root,
            chars::views(
                match target {
                    Some(t) => own_or(t.plugins, self.plugins)@,
                    None => self.plugins@,
                },
            ),
        )
        &&& chars::views(r.reports@) == chars::views(
            match target {
                Some(t) => own_or(t.reports, self.reports)@,
                None => self.reports@,
            },
        )
        &&& scope_or_default(self.target_paths(target), root, files, kotlin_patterns()) == Some(
            (chars::views(r.paths.includes@), chars::views(r.paths.exclude@)),
        )
        &&& self.target_classpath_entries(target, root, files) == Some(chars::views(r.classpath@))
        &&& chars::opt_view(r.jvm_target) == chars::opt_view(self.target_jvm_target(target))
        &&& chars::views(r.args@) == self.target_args(target)
    }

    /// The error is the first one that the settings of the target give.
    pub open spec fn is_fault(
        self,
        target: Option<&DetektTarget>,
        root: Seq<char>,
        files: FileTexts,
        e: ConfigError,
    ) -> bool {
        if scope_or_default(self.target_paths(target), root, files, kotlin_patterns()) is None {
            self.target_paths(target) matches Some(p) && p.unread(root, files, e)
        } else {
            match self.target_classpath_entries(target, root, files) {
                None => self.target_classpath(target) matches Some(PathList::FromFile(p)) && (
                e matches ConfigError::ReadPathList { path, cause } && path@ == fspath::joined(
                    root,
                    p@,
                ) && cause@ == files.at(path@).reason()),
                Some(cp) => if cp.len() > 0 && self.target_jvm_target(target) is None {
                    e matches ConfigError::ClasspathWithoutJvmTarget { target: t } && t@
                        == target_name(target)
                } else {
                    first_owned(self.target_args(target)) matches Some(a) && (
                    e matches ConfigError::OwnedOption { arg } && arg@ == a)
                },
            }
        }
    }

    /// Where detekt comes from.
    pub fn source(&self, repo_root: &str) -> (r: ToolSource)
        requires
            locatable(self.version, self.path),
        ensures
            is_source_of(self.version, self.path, repo_root@, r),
    {
        resolve_source(&self.version, &self.path, repo_root)
    }

    /// The targets with all their settings: those of the section, or one named
    /// `default` where it lists none.
    pub fn resolve_targets(&self, repo_root: &str, files: &FileTexts) -> (r: Result<
        Vec<ResolvedDetektTarget>,
        ConfigError,
    >)
        ensures
            match r {
                Ok(v) => if self.targets@.len() == 0 {
                    v@.len() == 1 && self.resolves(None, repo_root@, *files) && self.is_resolution(
                        None,
                        repo_root@,
                        *files,
                        v@[0],
                    )
                } else {
                    v@.len() == self.targets@.len() && forall|i: int|
                        0 <= i < v@.len() ==> self.resolves(
                            Some(&self.targets@[i]),
                            repo_root@,
                            *files,
                        ) && self.is_resolution(
                            Some(&self.targets@[i]),
                            repo_root@,
                            *files,
                            #[trigger] v@[i],
                        )
                },
                Err(e) => if self.targets@.len() == 0 {
                    !self.resolves(None, repo_root@, *files) && self.is_fault(
                        None,
                        repo_root@,
                        *files,
                        e,
                    )
                } else {
                    exists|i: int|
                        0 <= i < self.targets@.len() && !self.resolves(
                            Some(&#[trigger] self.targets@[i]),
                            repo_root@,
                            *files,
                        ) && self.is_fault(Some(&self.targets@[i]), repo_root@, *files, e)
                            && forall|j: int|
                            0 <= j < i ==> self.resolves(
                                Some(&#[trigger] self.targets@[j]),
                                repo_root@,
                                *files,
                            )
                },
            },
    {
        let mut out: Vec<ResolvedDetektTarget> = Vec::new();
        if self.targets.len() == 0 {
            match self.resolve_target(repo_root, files, None) {
                Ok(t) => {
                    out.push(t);
                    return Ok(out);
                },
                Err(e) => {
                    return Err(e);
                },
            }
        }
        let mut i: usize = 0;
        while i < self.targets.len()
            invariant
                i <= self.targets.len(),
                self.targets@.len() > 0,
                out@.len() == i,
                forall|j: int|
                    0 <= j < i ==> self.resolves(
                        Some(&#[trigger] self.targets@[j]),
                        repo_root@,
                        *files,
                    ),
                forall|j: int|
                    0 <= j < i ==> self.is_resolution(
                        Some(&self.targets@[j]),
                        repo_root@,
                        *files,
                        #[trigger] out@[j],
                    ),
            decreases self.targets.len() - i,
        {
            match self.resolve_target(repo_root, files, Some(&self.targets[i])) {
                Ok(t) => {
                    out.push(t);
                },
                Err(e) => {
                    assert(!self.resolves(Some(&self.targets@[i as int]), repo_root@, *files));
                    return Err(e);
                },
            }
            i += 1;
        }
        assert forall|j: int| 0 <= j < out@.len() implies self.resolves(
            Some(&self.targets@[j]),
            repo_root@,
            *files,
        ) && self.is_resolution(Some(&self.targets@[j]), repo_root@, *files, #[trigger] out@[j]) by {
            let t = self.targets@[j];
        }
        Ok(out)
    }

    /// One target with all its settings.
    fn resolve_target(&self, repo_root: &str, files: &FileTexts, target: Option<&DetektTarget>) -> (r:
        Result<ResolvedDetektTarget, ConfigError>)
        ensures
            match r {
                Ok(t) => self.resolves(target, repo_root@, *files) && self.is_resolution(
                    target,
                    repo_root@,
                    *files,
                    t,
                ),
                Err(e) => !self.resolves(target, repo_root@, *files) && self.is_fault(
                    target,
                    repo_root@,
                    *files,
                    e,
                ),
            },
    {
        let own_paths = match target {
            Some(t) => match &t.paths {
                Some(_) => &t.paths,
                None => &self.paths,
            },
            None => &self.paths,
        };
        let paths = match resolve_scope(own_paths, repo_root, files, default_kotlin()) {
            Ok(p) => p,
            Err(e) => {
                return Err(e);
            },
        };
        let own_classpath = match target {
            Some(t) => match &t.classpath {
                Some(_) => &t.classpath,
                None => &self.classpath,
            },
            None => &self.classpath,
        };
        let classpath = match own_classpath {
            Some(c) => match c.resolve(repo_root, files) {
                Ok(v) => v,
                Err(e) => {
                    return Err(e);
                },
            },
            None => {
                let none: Vec<String> = Vec::new();
                assert(chars::views(none@) =~= Seq::empty());
                none
            },
        };
        let own_jvm_target = match target {
            Some(t) => match &t.jvm_target {
                Some(_) => &t.jvm_target,
                None => &self.jvm_target,
            },
            None => &self.jvm_target,
        };
        let jvm_target = text::copy_opt(own_jvm_target);
        let name = match target {
            Some(t) => t.name.clone(),
            None => "default".to_owned(),
        };
        assert(chars::views(classpath@).len() == classpath@.len());
        if classpath.len() > 0 && jvm_target.is_none() {
            return Err(ConfigError::ClasspathWithoutJvmTarget { target: name });
        }
        let mut args = text::copy_list(&self.args);
        if let Some(t) = target {
            text::append(&mut args, &t.args);
        }
        match validate_detekt_args(&args) {
            Ok(_) => {},
            Err(e) => {
                return Err(e);
            },
        }
        let own_configs = match target {
            Some(t) => match &t.configs {
                Some(v) => v,
                None => &self.configs,
            },
            None => &self.configs,
        };
        let own_resources = match target {
            Some(t) => match &t.config_resources {
                Some(v) => v,
                None => &self.config_resources,
            },
            None => &self.config_resources,
        };
        let own_baseline = match target {
            Some(t) => match &t.baseline {
                Some(_) => &t.baseline,
                None => &self.baseline,
            },
            None => &self.baseline,
        };
        let own_default = match target {
            Some(t) => match t.build_upon_default_config {
                Some(b) => b,
                None => self.build_upon_default_config,
            },
            None => self.build_upon_default_config,
        };
        let own_plugins = match target {
            Some(t) => match &t.plugins {
                Some(v) => v,
                None => &self.plugins,
            },
            None => &self.plugins,
        };
        let own_reports = match target {
            Some(t) => match &t.reports {
                Some(v) => v,
                None => &self.reports,
            },
            None => &self.reports,
        };
        let baseline = match own_baseline {
            Some(b) => Some(resolve_path(repo_root, b)),
            None => None,
        };
        Ok(
            ResolvedDetektTarget {
                name,
                configs: resolve_paths(repo_root, own_configs),
                config_resources: text::copy_list(own_resources),
                baseline,
                build_upon_default_config: own_default,
                plugins: resolve_paths(repo_root, own_plugins),
                reports: text::copy_list(own_reports),
                paths,
                classpath,
                jvm_target,
                args,
            },
        )
    }
}

/// The header settings of a tool: its own file or else the global one, and its
/// own excludes; nothing where there is no file.
pub open spec fn header_for(
    global: Option<LicenseHeader>,
    tool: Option<ToolLicenseHeader>,
) -> Option<(Seq<char>, Option<Seq<char>>)> {
    let file = match tool {
        Some(ToolLicenseHeader { file: Some(f), .. }) => Some(f@),
        _ => match global {
            Some(g) => Some(g.file@),
            None => None,
        },
    };
    match file {
        Some(f) => Some(
            (
                f,
                match tool {
                    Some(t) => chars::opt_view(t.excludes),
                    None => None,
                },
            ),
        ),
        None => None,
    }
}

impl ResolvedHeader {
    pub open spec fn parts(self) -> (Seq<char>, Option<Seq<char>>) {
        (self.file@, chars::opt_view(self.excludes))
    }
}

/// The characters of optional header settings.
pub open spec fn opt_parts(h: Option<ResolvedHeader>) -> Option<(Seq<char>, Option<Seq<char>>)> {
    match h {
        Some(h) => Some(h.parts()),
        None => None,
    }
}

fn resolve_header(global: &Option<LicenseHeader>, tool: Option<&ToolLicenseHeader>) -> (r: Option<
    ResolvedHeader,
>)
    ensures
        opt_parts(r) == header_for(
            *global,
            match tool {
                Some(t) => Some(*t),
                None => None,
            },
        ),
{
    let own = match tool {
        Some(t) => text::copy_opt(&t.file),
        None => None,
    };
    let file = match own {
        Some(f) => f,
        None => match global {
            Some(g) => g.file.clone(),
            None => {
                return None;
            },
        },
    };
    let excludes = match tool {
        Some(t) => text::copy_opt(&t.excludes),
        None => None,
    };
    Some(ResolvedHeader { file, excludes })
}

/// A tool's own header settings.
pub open spec fn own_header<T>(tool: Option<T>, header: spec_fn(T) -> Option<
    ToolLicenseHeader,
>) -> Option<ToolLicenseHeader> {
    match tool {
        Some(t) => header(t),
        None => None,
    }
}

/// What is wrong with the sections of a configuration.
pub enum SectionFault {
    /// The tool has a version and a path.
    BothSources(Seq<char>),
    /// The tool has neither a version nor a path.
    NoSource(Seq<char>),
    /// The argument sets an option that cannot be given as one.
    Owned(Seq<char>),
}

impl ConfigError {
    pub open spec fn is_section_fault(self, f: SectionFault) -> bool {
        match f {
            SectionFault::BothSources(t) => self matches ConfigError::BothSources { tool } && tool@
                == t,
            SectionFault::NoSource(t) => self matches ConfigError::NoSource { tool } && tool@ == t,
            SectionFault::Owned(a) => self matches ConfigError::OwnedOption { arg } && arg@ == a,
        }
    }
}

/// What is wrong with where a tool comes from.
pub open spec fn source_fault(
    version: Option<VersionSpec>,
    path: Option<String>,
    tool: Seq<char>,
) -> Option<SectionFault> {
    if version is Some && path is Some {
        Some(SectionFault::BothSources(tool))
    } else if version is None && path is None {
        Some(SectionFault::NoSource(tool))
    } else {
        None
    }
}

/// The first argument of the first target that sets an option that cannot be
/// given as one.
pub open spec fn first_owned_of_targets(targets: Seq<DetektTarget>) -> Option<Seq<char>>
    decreases targets.len(),
{
    if targets.len() == 0 {
        None
    } else {
        match first_owned(chars::views(targets[0].args@)) {
            Some(a) => Some(a),
            None => first_owned_of_targets(targets.skip(1)),
        }
    }
}

/// The first thing that is wrong with the detekt section.
pub open spec fn detekt_fault(d: Detekt) -> Option<SectionFault> {
    match source_fault(d.version, d.path, "detekt"@) {
        Some(f) => Some(f),
        None => match first_owned(chars::views(d.args@)) {
            Some(a) => Some(SectionFault::Owned(a)),
            None => match first_owned_of_targets(d.targets@) {
                Some(a) => Some(SectionFault::Owned(a)),
                None => None,
            },
        },
    }
}

fn validate_source_xor(version: &Option<VersionSpec>, path: &Option<String>, tool: &str) -> (r:
    Result<(), ConfigError>)
    ensures
        match source_fault(*version, *path, tool@) {
            None => r is Ok,
            Some(f) => r matches Err(e) && e.is_section_fault(f),
        },
{
    match (version, path) {
        (Some(_), Some(_)) => Err(ConfigError::BothSources { tool: tool.to_owned() }),
        (None, None) => Err(ConfigError::NoSource { tool: tool.to_owned() }),
        _ => Ok(()),
    }
}

impl Config {
    /// The first thing that is wrong with the sections.
    pub open spec fn first_fault(self) -> Option<SectionFault> {
        let kt = match self.ktfmt {
            Some(kt) => source_fault(kt.version, kt.path, "ktfmt"@),
            None => None,
        };
        let g = match self.gjf {
            Some(g) => source_fault(g.version, g.path, "gjf"@),
            None => None,
        };
        if kt is Some {
            kt
        } else if g is Some {
            g
        } else {
            match self.detekt {
                Some(d) => detekt_fault(d),
                None => None,
            }
        }
    }

    /// Each tool has exactly one source, and no argument for detekt sets what
    /// the configuration sets.
    pub fn validate(&self) -> (r: Result<(), ConfigError>)
        ensures
            match self.first_fault() {
                None => r is Ok,
                Some(f) => r matches Err(e) && e.is_section_fault(f),
            },
    {
        if let Some(kt) = &self.ktfmt {
            match validate_source_xor(&kt.version, &kt.path, "ktfmt") {
                Ok(_) => {},
                Err(e) => {
                    return Err(e);
                },
            }
        }
        if let Some(g) = &self.gjf {
            match validate_source_xor(&g.version, &g.path, "gjf") {
                Ok(_) => {},
                Err(e) => {
                    return Err(e);
                },
            }
        }
        if let Some(d) = &self.detekt {
            match validate_source_xor(&d.version, &d.path, "detekt") {
                Ok(_) => {},
                Err(e) => {
                    return Err(e);
                },
            }
            match validate_detekt_args(&d.args) {
                Ok(_) => {},
                Err(e) => {
                    return Err(e);
                },
            }
            let mut i: usize = 0;
            assert(d.targets@.skip(0) =~= d.targets@);
            while i < d.targets.len()
                invariant
                    i <= d.targets.len(),
                    self.detekt == Some(*d),
                    self.first_fault() == detekt_fault(*d),
                    source_fault(d.version, d.path, "detekt"@) is None,
                    first_owned(chars::views(d.args@)) is None,
                    first_owned_of_targets(d.targets@) == first_owned_of_targets(
                        d.targets@.skip(i as int),
                    ),
                decreases d.targets.len() - i,
            {
                assert(d.targets@.skip(i as int).skip(1) =~= d.targets@.skip(i + 1));
                match validate_detekt_args(&d.targets[i].args) {
                    Ok(_) => {},
                    Err(e) => {
                        return Err(e);
                    },
                }
                i += 1;
            }
        }
        Ok(())
    }

    /// The header settings of Kotlin sources and scripts.
    pub open spec fn kotlin_header(self) -> Option<(Seq<char>, Option<Seq<char>>)> {
        header_for(self.license_header, own_header(self.ktfmt, |k: Ktfmt| k.license_header))
    }

    /// The header settings of Java sources.
    pub open spec fn java_header(self) -> Option<(Seq<char>, Option<Seq<char>>)> {
        header_for(self.license_header, own_header(self.gjf, |g: Gjf| g.license_header))
    }

    /// The header settings of Rust sources.
    pub open spec fn rust_header(self) -> Option<(Seq<char>, Option<Seq<char>>)> {
        header_for(self.license_header, own_header(self.rustfmt, |r: Rustfmt| r.license_header))
    }

    /// The header settings of Kotlin sources and scripts.
    pub fn ktfmt_header(&self) -> (r: Option<ResolvedHeader>)
        ensures
            opt_parts(r) == self.kotlin_header(),
    {
        let tool = match &self.ktfmt {
            Some(k) => k.license_header.as_ref(),
            None => None,
        };
        resolve_header(&self.license_header, tool)
    }

    /// The header settings of Java sources.
    pub fn gjf_header(&self) -> (r: Option<ResolvedHeader>)
        ensures
            opt_parts(r) == self.java_header(),
    {
        let tool = match &self.gjf {
            Some(g) => g.license_header.as_ref(),
            None => None,
        };
        resolve_header(&self.license_header, tool)
    }

    /// The header settings of Rust sources.
    pub fn rustfmt_header(&self) -> (r: Option<ResolvedHeader>)
        ensures
            opt_parts(r) == self.rust_header(),
    {
        let tool = match &self.rustfmt {
            Some(r) => r.license_header.as_ref(),
            None => None,
        };
        resolve_header(&self.license_header, tool)
    }
}

/// A valid configuration has exactly one source for each tool.
pub proof fn valid_tools_have_one_source(c: Config)
    requires
        c.first_fault() is None,
    ensures
        c.ktfmt matches Some(k) ==> (k.version is Some) != (k.path is Some),
        c.gjf matches Some(g) ==> (g.version is Some) != (g.path is Some),
        c.detekt matches Some(d) ==> (d.version is Some) != (d.path is Some),
{
}

/// Where the configuration is valid, the arguments of each detekt target are
/// free of options that the configuration sets.
pub proof fn valid_detekt_args_are_free(d: Detekt, i: int)
    requires
        detekt_fault(d) is None,
        0 <= i < d.targets@.len(),
    ensures
        first_owned(d.target_args(None)) is None,
        first_owned(d.target_args(Some(&d.targets@[i]))) is None,
{
    lemma_first_owned_of_targets(d.targets@, i);
    lemma_first_owned_append(chars::views(d.args@), chars::views(d.targets@[i].args@));
}

proof fn lemma_first_owned_of_targets(targets: Seq<DetektTarget>, i: int)
    requires
        first_owned_of_targets(targets) is None,
        0 <= i < targets.len(),
    ensures
        first_owned(chars::views(targets[i].args@)) is None,
    decreases targets.len(),
{
    if i > 0 {
        lemma_first_owned_of_targets(targets.skip(1), i - 1);
    }
}

/// Why a reference to a catalog gives no version.
pub enum RefFault {
    /// The catalog has no text.
    Unread,
    /// Something is wrong with the catalog or the key.
    Catalog(CatalogFault),
}

impl VersionRef {
    /// The catalog that is referred to.
    pub open spec fn catalog_path(self, root: Seq<char>) -> Seq<char> {
        fspath::joined(root, self.file@)
    }

    /// The key that is looked up.
    pub open spec fn lookup_key(self, default_key: Seq<char>) -> Seq<char> {
        match self.key {
            Some(k) => k@,
            None => default_key,
        }
    }

    /// The version that is referred to.
    pub open spec fn target(
        self,
        root: Seq<char>,
        files: FileTexts,
        default_key: Seq<char>,
    ) -> Result<Seq<char>, RefFault> {
        match files.at(self.catalog_path(root)) {
            Reading::Text(t) => match catalog::catalog_version(t, self.lookup_key(default_key)) {
                Ok(v) => Ok(v),
                Err(f) => Err(RefFault::Catalog(f)),
            },
            _ => Err(RefFault::Unread),
        }
    }
}

impl ConfigError {
    /// The error is the one that the reference gives.
    pub open spec fn is_ref_fault(
        self,
        r: VersionRef,
        root: Seq<char>,
        files: FileTexts,
        default_key: Seq<char>,
    ) -> bool {
        match r.target(root, files, default_key) {
            Ok(_) => false,
            Err(RefFault::Unread) => self matches ConfigError::ReadCatalog { path, cause } && path@
                == r.catalog_path(root) && cause@ == files.at(path@).reason(),
            Err(RefFault::Catalog(f)) => self matches ConfigError::Catalog { fault, key, path, .. }
                && fault == f && key@ == r.lookup_key(default_key) && path@ == r.catalog_path(root),
        }
    }
}

/// The catalogs read so far are those of the files.
spec fn catalogs_are_read(cache: Seq<(String, Catalog)>, files: FileTexts) -> bool {
    forall|i: int|
        0 <= i < cache.len() ==> (files.at((#[trigger] cache[i]).0@) matches Reading::Text(t)
            && catalog::toml_document(t) == Some(cache[i].1@))
}

/// Where the catalog of a path is among those read so far: its first place, and
/// nothing exactly where it has not been read.
fn cached_catalog(cache: &Vec<(String, Catalog)>, path: &str) -> (r: Option<usize>)
    ensures
        match r {
            Some(i) => i < cache@.len() && cache@[i as int].0@ == path@ && forall|k: int|
                0 <= k < i ==> (#[trigger] cache@[k]).0@ != path@,
            None => forall|k: int| 0 <= k < cache@.len() ==> (#[trigger] cache@[k]).0@ != path@,
        },
{
    let mut i: usize = 0;
    while i < cache.len()
        invariant
            i <= cache.len(),
            forall|k: int| 0 <= k < i ==> (#[trigger] cache@[k]).0@ != path@,
        decreases cache.len() - i,
    {
        if text::same(&cache[i].0, path) {
            return Some(i);
        }
        i += 1;
    }
    None
}

/// The version that a reference gives. A catalog is read once and then kept.
fn resolve_catalog_ref(
    r: &VersionRef,
    repo_root: &str,
    default_key: &str,
    files: &FileTexts,
    cache: &mut Vec<(String, Catalog)>,
) -> (v: Result<String, ConfigError>)
    requires
        catalogs_are_read(old(cache)@, *files),
    ensures
        catalogs_are_read(final(cache)@, *files),
        match v {
            Ok(s) => r.target(repo_root@, *files, default_key@) == Ok::<_, RefFault>(s@),
            Err(e) => e.is_ref_fault(*r, repo_root@, *files, default_key@),
        },
{
    let path = resolve_path(repo_root, &r.file);
    let index: usize = match cached_catalog(cache, &path) {
        Some(i) => i,
        None => {
            let t = match files.get(&path) {
                FileState::Text(t) => t,
                other => {
                    let cause = snapshot::why_no_text(&other);
                    return Err(ConfigError::ReadCatalog { path, cause });
                },
            };
            match Catalog::parse(&t) {
                Ok(c) => {
                    let i: usize = cache.len();
                    let ghost before = cache@;
                    cache.push((path.clone(), c));
                    assert(forall|k: int| 0 <= k < before.len() ==> cache@[k] == before[k]);
                    i
                },
                Err(cause) => {
                    let key = match &r.key {
                        Some(k) => k.clone(),
                        None => default_key.to_owned(),
                    };
                    return Err(
                        ConfigError::Catalog { fault: CatalogFault::NotToml, key, path, cause },
                    );
                },
            }
        },
    };
    let key = match &r.key {
        Some(k) => k.clone(),
        None => default_key.to_owned(),
    };
    assert(files.at(cache@[index as int].0@) is Text);
    match cache[index].1.version(&key) {
        Ok(v) => Ok(v),
        Err(fault) => Err(ConfigError::Catalog { fault, key, path, cause: String::new() }),
    }
}

/// The version with a reference replaced by what it gives.
pub open spec fn version_resolves_to(
    before: Option<VersionSpec>,
    after: Option<VersionSpec>,
    root: Seq<char>,
    files: FileTexts,
    default_key: Seq<char>,
) -> bool {
    match before {
        Some(VersionSpec::Ref(r)) => after matches Some(VersionSpec::Literal(v)) && r.target(
            root,
            files,
            default_key,
        ) == Ok::<_, RefFault>(v@),
        _ => after == before,
    }
}

/// The version is a reference that gives none.
pub open spec fn version_fails(
    version: Option<VersionSpec>,
    root: Seq<char>,
    files: FileTexts,
    default_key: Seq<char>,
) -> bool {
    version matches Some(VersionSpec::Ref(r)) && r.target(root, files, default_key) is Err
}

/// The error is the one that the version's reference gives.
pub open spec fn is_version_fault(
    version: Option<VersionSpec>,
    root: Seq<char>,
    files: FileTexts,
    default_key: Seq<char>,
    e: ConfigError,
) -> bool {
    version matches Some(VersionSpec::Ref(r)) && e.is_ref_fault(r, root, files, default_key)
}

fn resolve_version(
    version: Option<VersionSpec>,
    repo_root: &str,
    default_key: &str,
    files: &FileTexts,
    cache: &mut Vec<(String, Catalog)>,
) -> (r: Result<Option<VersionSpec>, ConfigError>)
    requires
        catalogs_are_read(old(cache)@, *files),
    ensures
        catalogs_are_read(final(cache)@, *files),
        match r {
            Ok(after) => version_resolves_to(version, after, repo_root@, *files, default_key@)
                && !version_fails(version, repo_root@, *files, default_key@),
            Err(e) => version_fails(version, repo_root@, *files, default_key@) && is_version_fault(
                version,
                repo_root@,
                *files,
                default_key@,
                e,
            ),
        },
{
    match version {
        Some(VersionSpec::Ref(r)) => match resolve_catalog_ref(
            &r,
            repo_root,
            default_key,
            files,
            cache,
        ) {
            Ok(v) => Ok(Some(VersionSpec::Literal(v))),
            Err(e) => Err(e),
        },
        other => Ok(other),
    }
}

impl Config {
    /// The version settings of the tools, in the order in which they are
    /// resolved.
    pub open spec fn ktfmt_version(self) -> Option<VersionSpec> {
        match self.ktfmt {
            Some(k) => k.version,
            None => None,
        }
    }

    pub open spec fn gjf_version(self) -> Option<VersionSpec> {
        match self.gjf {
            Some(g) => g.version,
            None => None,
        }
    }

    pub open spec fn detekt_version(self) -> Option<VersionSpec> {
        match self.detekt {
            Some(d) => d.version,
            None => None,
        }
    }

    /// `after` is this configuration but for the versions of its tools.
    pub open spec fn same_but_versions(self, after: Config) -> bool {
        &&& after.rustfmt == self.rustfmt
        &&& after.license_header == self.license_header
        &&& after.paths == self.paths
        &&& after.whitespace == self.whitespace
        &&& after.hook == self.hook
        &&& match self.ktfmt {
            None => after.ktfmt is None,
            Some(k) => after.ktfmt == Some(Ktfmt { version: after.ktfmt_version(), ..k }),
        }
        &&& match self.gjf {
            None => after.gjf is None,
            Some(g) => after.gjf == Some(Gjf { version: after.gjf_version(), ..g }),
        }
        &&& match self.detekt {
            None => after.detekt is None,
            Some(d) => after.detekt == Some(Detekt { version: after.detekt_version(), ..d }),
        }
    }

    /// Replaces references to catalogs by the versions that these give. The
    /// first reference that gives none is the error.
    pub fn resolve_catalogs(self, repo_root: &str, files: &FileTexts) -> (r: Result<
        Config,
        ConfigError,
    >)
        ensures
            match r {
                Ok(c) => {
                    &&& self.same_but_versions(c)
                    &&& version_resolves_to(
                        self.ktfmt_version(),
                        c.ktfmt_version(),
                        repo_root@,
                        *files,
                        "ktfmt"@,
                    )
                    &&& version_resolves_to(
                        self.gjf_version(),
                        c.gjf_version(),
                        repo_root@,
                        *files,
                        "gjf"@,
                    )
                    &&& version_resolves_to(
                        self.detekt_version(),
                        c.detekt_version(),
                        repo_root@,
                        *files,
                        "detekt"@,
                    )
                },
                Err(e) => if version_fails(self.ktfmt_version(), repo_root@, *files, "ktfmt"@) {
                    is_version_fault(self.ktfmt_version(), repo_root@, *files, "ktfmt"@, e)
                } else if version_fails(self.gjf_version(), repo_root@, *files, "gjf"@) {
                    is_version_fault(self.gjf_version(), repo_root@, *files, "gjf"@, e)
                } else {
                    version_fails(self.detekt_version(), repo_root@, *files, "detekt"@)
                        && is_version_fault(
                        self.detekt_version(),
                        repo_root@,
                        *files,
                        "detekt"@,
                        e,
                    )
                },
            },
    {
        let mut cache: Vec<(String, Catalog)> = Vec::new();
        let Config {
            ktfmt,
            gjf,
            detekt,
            rustfmt,
            license_header,
            paths,
            whitespace,
            hook,
        } = self;
        let ktfmt = match ktfmt {
            Some(k) => {
                let Ktfmt { version, path, style, license_header, paths } = k;
                match resolve_version(version, repo_root, "ktfmt", files, &mut cache) {
                    Ok(version) => Some(Ktfmt { version, path, style, license_header, paths }),
                    Err(e) => {
                        return Err(e);
                    },
                }
            },
            None => None,
        };
        let gjf = match gjf {
            Some(g) => {
                let Gjf { version, path, style, license_header, native, paths } = g;
                match resolve_version(version, repo_root, "gjf", files, &mut cache) {
                    Ok(version) => Some(
                        Gjf { version, path, style, license_header, native, paths },
                    ),
                    Err(e) => {
                        return Err(e);
                    },
                }
            },
            None => None,
        };
        let detekt = match detekt {
            Some(d) => {
                let Detekt {
                    version,
                    path,
                    configs,
                    config_resources,
                    baseline,
                    build_upon_default_config,
                    plugins,
                    reports,
                    paths,
                    classpath,
                    jvm_target,
                    args,
                    targets,
                } = d;
                match resolve_version(version, repo_root, "detekt", files, &mut cache) {
                    Ok(version) => Some(
                        Detekt {
                            version,
                            path,
                            configs,
                            config_resources,
                            baseline,
                            build_upon_default_config,
                            plugins,
                            reports,
                            paths,
                            classpath,
                            jvm_target,
                            args,
                            targets,
                        },
                    ),
                    Err(e) => {
                        return Err(e);
                    },
                }
            },
            None => None,
        };
        Ok(Config { ktfmt, gjf, detekt, rustfmt, license_header, paths, whitespace, hook })
    }
}

/// Once the catalogs are resolved, no version is a reference any more, and the
/// tools of a valid configuration can be located.
pub proof fn resolved_catalogs_leave_literals(
    before: Config,
    after: Config,
    root: Seq<char>,
    files: FileTexts,
)
    requires
        before.same_but_versions(after),
        version_resolves_to(before.ktfmt_version(), after.ktfmt_version(), root, files, "ktfmt"@),
        version_resolves_to(before.gjf_version(), after.gjf_version(), root, files, "gjf"@),
        version_resolves_to(
            before.detekt_version(),
            after.detekt_version(),
            root,
            files,
            "detekt"@,
        ),
    ensures
        is_literal(after.ktfmt_version()),
        is_literal(after.gjf_version()),
        is_literal(after.detekt_version()),
        before.first_fault() is None ==> after.first_fault() is None,
        before.first_fault() is None ==> (after.ktfmt matches Some(k) ==> locatable(
            k.version,
            k.path,
        )),
        before.first_fault() is None ==> (after.gjf matches Some(g) ==> locatable(
            g.version,
            g.path,
        )),
        before.first_fault() is None ==> (after.detekt matches Some(d) ==> locatable(
            d.version,
            d.path,
        )),
{
}

/// Without settings of its own a tool takes the sources of its language, and the
/// whitespace passes take those of all; build outputs are left out by default.
pub proof fn default_scopes_by_language()
    ensures
        kotlin_patterns() == seq!["**/*.kt"@, "**/*.kts"@],
        java_patterns() == seq!["**/*.java"@],
        rust_patterns() == seq!["**/*.rs"@],
        source_patterns() == kotlin_patterns() + java_patterns() + rust_patterns(),
        default_excludes() == seq!["**/build/**"@, "**/target/**"@],
{
    assert(source_patterns() =~= kotlin_patterns() + java_patterns() + rust_patterns());
}

/// A list that a tool sets stands in the place of the default, the other list
/// stays the default one; without settings both are, and by default nothing is
/// excluded. A scope is there just where the lists that are set can be read.
pub proof fn scopes_fall_back_by_list(
    paths: Option<ToolPaths>,
    root: Seq<char>,
    files: FileTexts,
    defaults: Seq<Seq<char>>,
)
    ensures
        paths is None ==> scope_or_default(paths, root, files, defaults) == Some(
            (defaults, Seq::<Seq<char>>::empty()),
        ),
        paths matches Some(p) ==> {
            let r = scope_or_default(paths, root, files, defaults);
            &&& r is Some <==> (p.includes matches Some(g) ==> g.patterns(root, files) is Some) && (
            p.exclude matches Some(g) ==> g.patterns(root, files) is Some)
            &&& r matches Some((i, e)) ==> {
                &&& p.includes is None ==> i == defaults
                &&& p.includes matches Some(g) ==> g.patterns(root, files) == Some(i)
                &&& p.exclude is None ==> e.len() == 0
                &&& p.exclude matches Some(g) ==> g.patterns(root, files) == Some(e)
            }
        },
{
}

/// A list of patterns is what stands inline, or the lines of its file, below the
/// root, that say something; a list of paths is that too, taken from the root.
pub proof fn lists_are_inline_or_files(
    v: Vec<String>,
    f: String,
    root: Seq<char>,
    files: FileTexts,
)
    ensures
        GlobList::Inline(v).patterns(root, files) == Some(chars::views(v@)),
        PathList::Inline(v).listed(root, files) == Some(
            v@.map_values(|s: String| fspath::joined(root, s@)),
        ),
        GlobList::FromFile(f).patterns(root, files) is Some <==> files.at(
            fspath::joined(root, f@),
        ) is Text,
        files.at(fspath::joined(root, f@)) matches Reading::Text(t) ==> ({
            let entries = chars::lines(t).map_values(|l: Seq<char>| chars::trim(l)).filter(
                |l: Seq<char>| l.len() > 0 && l[0] != '#',
            );
            &&& GlobList::FromFile(f).patterns(root, files) == Some(entries)
            &&& PathList::FromFile(f).listed(root, files) == Some(
                entries.map_values(|p: Seq<char>| fspath::joined(root, p)),
            )
        }),
        PathList::FromFile(f).listed(root, files) is Some <==> files.at(fspath::joined(root, f@))
            is Text,
{
    assert(joined_all(root, chars::views(v@)) =~= v@.map_values(
        |s: String| fspath::joined(root, s@),
    ));
    if let Reading::Text(t) = files.at(fspath::joined(root, f@)) {
        snapshot::entries_are_trimmed_lines(chars::lines(t));
    }
}

/// The argument is the long option, or sets it with `=`.
pub open spec fn is_long_option(arg: Seq<char>, option: Seq<char>) -> bool {
    arg == option || chars::starts_with(arg, option + "="@)
}

/// Options that Kempt sets cannot be given as arguments: the long ones neither
/// alone nor with `=` and a value, the short ones alone. All others can.
pub proof fn owned_options_by_name(arg: Seq<char>)
    ensures
        is_owned(arg) <==> {
            ||| is_long_option(arg, "--input"@)
            ||| is_long_option(arg, "--config"@)
            ||| is_long_option(arg, "--config-resource"@)
            ||| is_long_option(arg, "--classpath"@)
            ||| is_long_option(arg, "--plugins"@)
            ||| is_long_option(arg, "--baseline"@)
            ||| is_long_option(arg, "--report"@)
            ||| is_long_option(arg, "--base-path"@)
            ||| is_long_option(arg, "--jvm-target"@)
            ||| is_long_option(arg, "--analysis-mode"@)
            ||| is_long_option(arg, "--auto-correct"@)
            ||| is_long_option(arg, "--create-baseline"@)
            ||| arg == "-i"@
            ||| arg == "-c"@
            ||| arg == "-cr"@
            ||| arg == "-cp"@
            ||| arg == "-p"@
            ||| arg == "-b"@
            ||| arg == "-r"@
            ||| arg == "-bp"@
            ||| arg == "-ac"@
            ||| arg == "-cb"@
        },
{
    let o = owned_options();
    lemma_long_options();
    lemma_short_options();
    assert(o[0] == "--input"@ && o[1] == "-i"@ && o[2] == "--config"@ && o[3] == "-c"@ && o[4]
        == "--config-resource"@ && o[5] == "-cr"@ && o[6] == "--classpath"@ && o[7] == "-cp"@);
    assert(o[8] == "--plugins"@ && o[9] == "-p"@ && o[10] == "--baseline"@ && o[11] == "-b"@
        && o[12] == "--report"@ && o[13] == "-r"@ && o[14] == "--base-path"@ && o[15] == "-bp"@);
    assert(o[16] == "--jvm-target"@ && o[17] == "--analysis-mode"@ && o[18] == "--auto-correct"@
        && o[19] == "-ac"@ && o[20] == "--create-baseline"@ && o[21] == "-cb"@);
    assert(o.len() == 22);
    if is_owned(arg) {
        let i = choose|i: int| 0 <= i < o.len() && sets_option(arg, #[trigger] o[i]);
        assert(sets_option(arg, o[i]));
    }
}

proof fn lemma_long_options()
    ensures
        chars::starts_with("--input"@, "--"@),
        chars::starts_with("--config"@, "--"@),
        chars::starts_with("--config-resource"@, "--"@),
        chars::starts_with("--classpath"@, "--"@),
        chars::starts_with("--plugins"@, "--"@),
        chars::starts_with("--baseline"@, "--"@),
        chars::starts_with("--report"@, "--"@),
        chars::starts_with("--base-path"@, "--"@),
        chars::starts_with("--jvm-target"@, "--"@),
        chars::starts_with("--analysis-mode"@, "--"@),
        chars::starts_with("--auto-correct"@, "--"@),
        chars::starts_with("--create-baseline"@, "--"@),
{
    reveal_strlit("--");
    reveal_strlit("--input");
    reveal_strlit("--config");
    reveal_strlit("--config-resource");
    reveal_strlit("--classpath");
    reveal_strlit("--plugins");
    reveal_strlit("--baseline");
    reveal_strlit("--report");
    reveal_strlit("--base-path");
    reveal_strlit("--jvm-target");
    reveal_strlit("--analysis-mode");
    reveal_strlit("--auto-correct");
    reveal_strlit("--create-baseline");
    assert("--input"@.take(2) =~= "--"@);
    assert("--config"@.take(2) =~= "--"@);
    assert("--config-resource"@.take(2) =~= "--"@);
    assert("--classpath"@.take(2) =~= "--"@);
    assert("--plugins"@.take(2) =~= "--"@);
    assert("--baseline"@.take(2) =~= "--"@);
    assert("--report"@.take(2) =~= "--"@);
    assert("--base-path"@.take(2) =~= "--"@);
    assert("--jvm-target"@.take(2) =~= "--"@);
    assert("--analysis-mode"@.take(2) =~= "--"@);
    assert("--auto-correct"@.take(2) =~= "--"@);
    assert("--create-baseline"@.take(2) =~= "--"@);
}

proof fn lemma_short_options()
    ensures
        !chars::starts_with("-i"@, "--"@),
        !chars::starts_with("-c"@, "--"@),
        !chars::starts_with("-cr"@, "--"@),
        !chars::starts_with("-cp"@, "--"@),
        !chars::starts_with("-p"@, "--"@),
        !chars::starts_with("-b"@, "--"@),
        !chars::starts_with("-r"@, "--"@),
        !chars::starts_with("-bp"@, "--"@),
        !chars::starts_with("-ac"@, "--"@),
        !chars::starts_with("-cb"@, "--"@),
{
    reveal_strlit("--");
    reveal_strlit("-i");
    reveal_strlit("-c");
    reveal_strlit("-cr");
    reveal_strlit("-cp");
    reveal_strlit("-p");
    reveal_strlit("-b");
    reveal_strlit("-r");
    reveal_strlit("-bp");
    reveal_strlit("-ac");
    reveal_strlit("-cb");
    assert("--"@[1] == '-');
    assert("-i"@.take(2)[1] == 'i');
    assert("-c"@.take(2)[1] == 'c');
    assert("-cr"@.take(2)[1] == 'c');
    assert("-cp"@.take(2)[1] == 'c');
    assert("-p"@.take(2)[1] == 'p');
    assert("-b"@.take(2)[1] == 'b');
    assert("-r"@.take(2)[1] == 'r');
    assert("-bp"@.take(2)[1] == 'b');
    assert("-ac"@.take(2)[1] == 'a');
    assert("-cb"@.take(2)[1] == 'c');
}

/// The first argument that cannot be given is the one that is named, and where
/// none is named all can be given.
pub proof fn first_owned_is_first(args: Seq<Seq<char>>) -> (k: int)
    ensures
        match first_owned(args) {
            Some(a) => 0 <= k < args.len() && args[k] == a && is_owned(a) && forall|j: int|
                0 <= j < k ==> !is_owned(#[trigger] args[j]),
            None => forall|j: int| 0 <= j < args.len() ==> !is_owned(#[trigger] args[j]),
        },
    decreases args.len(),
{
    if args.len() == 0 || is_owned(args[0]) {
        0
    } else {
        let t = args.skip(1);
        let k = first_owned_is_first(t);
        match first_owned(args) {
            Some(a) => {
                assert forall|j: int| 0 <= j < k + 1 implies !is_owned(#[trigger] args[j]) by {
                    if j > 0 {
                        assert(args[j] == t[j - 1]);
                    }
                }
            },
            None => {
                assert forall|j: int| 0 <= j < args.len() implies !is_owned(
                    #[trigger] args[j],
                ) by {
                    if j > 0 {
                        assert(args[j] == t[j - 1]);
                    }
                }
            },
        }
        k + 1
    }
}

/// A tool that has both a version and a path, or neither, is at fault: ktfmt is
/// looked at first, then google-java-format, then detekt, and of detekt the
/// arguments of the section and then those of the targets after that.
pub proof fn faults_in_order(c: Config)
    ensures
        c.ktfmt matches Some(k) ==> ((k.version is Some) == (k.path is Some) ==> c.first_fault()
            == Some(
            if k.path is Some {
                SectionFault::BothSources("ktfmt"@)
            } else {
                SectionFault::NoSource("ktfmt"@)
            },
        )),
        (c.ktfmt matches Some(k) ==> (k.version is Some) != (k.path is Some)) ==> (
        c.gjf matches Some(g) ==> ((g.version is Some) == (g.path is Some) ==> c.first_fault()
            == Some(
            if g.path is Some {
                SectionFault::BothSources("gjf"@)
            } else {
                SectionFault::NoSource("gjf"@)
            },
        ))),
        (c.ktfmt matches Some(k) ==> (k.version is Some) != (k.path is Some)) && (
        c.gjf matches Some(g) ==> (g.version is Some) != (g.path is Some)) ==> (
        c.detekt matches Some(d) ==> c.first_fault() == (if (d.version is Some) == (d.path
            is Some) {
            Some(
                if d.path is Some {
                    SectionFault::BothSources("detekt"@)
                } else {
                    SectionFault::NoSource("detekt"@)
                },
            )
        } else if first_owned(chars::views(d.args@)) is Some {
            Some(SectionFault::Owned(first_owned(chars::views(d.args@))->0))
        } else if first_owned_of_targets(d.targets@) is Some {
            Some(SectionFault::Owned(first_owned_of_targets(d.targets@)->0))
        } else {
            None
        })),
        (c.ktfmt matches Some(k) ==> (k.version is Some) != (k.path is Some)) && (
        c.gjf matches Some(g) ==> (g.version is Some) != (g.path is Some)) && c.detekt is None
            ==> c.first_fault() is None,
{
}

/// A target at fault is found: where any of them has an argument that cannot be
/// given, one is named.
pub proof fn owned_arguments_of_targets_are_found(targets: Seq<DetektTarget>, i: int)
    requires
        0 <= i < targets.len(),
    ensures
        first_owned(chars::views(targets[i].args@)) is Some ==> first_owned_of_targets(targets)
            is Some,
    decreases targets.len(),
{
    if i > 0 {
        owned_arguments_of_targets_are_found(targets.skip(1), i - 1);
        assert(targets.skip(1)[i - 1] == targets[i]);
    }
}

/// A tool's own header file comes before that of the whole configuration; its
/// excludes are its own, and without either file there is no header.
pub proof fn headers_fall_back_to_the_global_one(
    global: Option<LicenseHeader>,
    tool: Option<ToolLicenseHeader>,
)
    ensures
        ({
            let own = tool is Some && tool->0.file is Some;
            let r = header_for(global, tool);
            &&& r is Some <==> own || global is Some
            &&& r matches Some((file, excludes)) ==> {
                &&& own ==> file == tool->0.file->0@
                &&& !own ==> file == global->0.file@
                &&& tool is None ==> excludes is None
                &&& tool matches Some(t) ==> excludes == chars::opt_view(t.excludes)
            }
        }),
{
}

/// Kotlin sources have the header settings of ktfmt, Java sources those of
/// google-java-format and Rust sources those of rustfmt; without the tool the
/// settings of the whole configuration hold.
pub proof fn headers_by_tool(c: Config)
    ensures
        c.kotlin_header() == header_for(
            c.license_header,
            if c.ktfmt is Some {
                c.ktfmt->0.license_header
            } else {
                None
            },
        ),
        c.java_header() == header_for(
            c.license_header,
            if c.gjf is Some {
                c.gjf->0.license_header
            } else {
                None
            },
        ),
        c.rust_header() == header_for(
            c.license_header,
            if c.rustfmt is Some {
                c.rustfmt->0.license_header
            } else {
                None
            },
        ),
{
}

/// A target has its own settings where it sets them and else those of the
/// section; its arguments come behind those of the section. Paths are taken from
/// the root.
pub proof fn targets_inherit_settings(
    d: Detekt,
    t: DetektTarget,
    root: Seq<char>,
    files: FileTexts,
    r: ResolvedDetektTarget,
    own: bool,
)
    requires
        d.is_resolution(if own { Some(&t) } else { None }, root, files, r),
    ensures
        r.name@ == if own {
            t.name@
        } else {
            "default"@
        },
        chars::views(r.configs@) == (if own && t.configs is Some {
            t.configs->0@
        } else {
            d.configs@
        }).map_values(|s: String| fspath::joined(root, s@)),
        chars::views(r.config_resources@) == chars::views(
            if own && t.config_resources is Some {
                t.config_resources->0@
            } else {
                d.config_resources@
            },
        ),
        own && t.baseline is Some ==> (r.baseline matches Some(b) && b@ == fspath::joined(
            root,
            t.baseline->0@,
        )),
        !(own && t.baseline is Some) ==> chars::opt_view(r.baseline) == (match d.baseline {
            Some(b) => Some(fspath::joined(root, b@)),
            None => None,
        }),
        r.build_upon_default_config == if own && t.build_upon_default_config is Some {
            t.build_upon_default_config->0
        } else {
            d.build_upon_default_config
        },
        chars::views(r.plugins@) == (if own && t.plugins is Some {
            t.plugins->0@
        } else {
            d.plugins@
        }).map_values(|s: String| fspath::joined(root, s@)),
        chars::views(r.reports@) == chars::views(
            if own && t.reports is Some {
                t.reports->0@
            } else {
                d.reports@
            },
        ),
        scope_or_default(
            if own && t.paths is Some {
                t.paths
            } else {
                d.paths
            },
            root,
            files,
            kotlin_patterns(),
        ) == Some((chars::views(r.paths.includes@), chars::views(r.paths.exclude@))),
        (if own && t.classpath is Some {
            t.classpath
        } else {
            d.classpath
        }) matches Some(list) ==> list.listed(root, files) == Some(chars::views(r.classpath@)),
        (if own && t.classpath is Some {
            t.classpath
        } else {
            d.classpath
        }) is None ==> r.classpath@.len() == 0,
        chars::opt_view(r.jvm_target) == chars::opt_view(
            if own && t.jvm_target is Some {
                t.jvm_target
            } else {
                d.jvm_target
            },
        ),
        chars::views(r.args@) == chars::views(d.args@) + (if own {
            chars::views(t.args@)
        } else {
            Seq::empty()
        }),
{
    let configs = if own && t.configs is Some {
        t.configs->0@
    } else {
        d.configs@
    };
    assert(joined_all(root, chars::views(configs)) =~= configs.map_values(
        |s: String| fspath::joined(root, s@),
    ));
    let plugins = if own && t.plugins is Some {
        t.plugins->0@
    } else {
        d.plugins@
    };
    assert(joined_all(root, chars::views(plugins)) =~= plugins.map_values(
        |s: String| fspath::joined(root, s@),
    ));
    assert(chars::views(d.args@) + Seq::<Seq<char>>::empty() =~= chars::views(d.args@));
}

/// The settings of a target hold together just where its lists can be read, a
/// class path that is not empty comes with a JVM target, and none of its
/// arguments sets an option that cannot be given.
pub proof fn targets_resolve(
    d: Detekt,
    target: Option<&DetektTarget>,
    root: Seq<char>,
    files: FileTexts,
)
    ensures
        d.resolves(target, root, files) <==> {
            &&& scope_or_default(d.target_paths(target), root, files, kotlin_patterns()) is Some
            &&& d.target_classpath_entries(target, root, files) is Some
            &&& d.target_classpath_entries(target, root, files)->0.len() > 0
                ==> d.target_jvm_target(target) is Some
            &&& forall|i: int|
                0 <= i < d.target_args(target).len() ==> !is_owned(
                    #[trigger] d.target_args(target)[i],
                )
        },
{
    let args = d.target_args(target);
    let k = first_owned_is_first(args);
    if first_owned(args) is Some {
        assert(is_owned(args[k]));
    }
}

/// A version that refers to a catalog is looked up under its own key, or under
/// the name of the tool where it has none, in the file below the root.
pub proof fn references_have_a_key(r: VersionRef, root: Seq<char>, files: FileTexts, tool: Seq<char>)
    ensures
        r.key matches Some(k) ==> r.lookup_key(tool) == k@,
        r.key is None ==> r.lookup_key(tool) == tool,
        files.at(fspath::joined(root, r.file@)) matches Reading::Text(t) ==> match catalog::catalog_version(
            t,
            r.lookup_key(tool),
        ) {
            Ok(v) => r.target(root, files, tool) == Ok::<Seq<char>, RefFault>(v),
            Err(f) => r.target(root, files, tool) == Err::<Seq<char>, RefFault>(
                RefFault::Catalog(f),
            ),
        },
        !(files.at(fspath::joined(root, r.file@)) is Text) ==> r.target(root, files, tool) == Err::<
            Seq<char>,
            RefFault,
        >(RefFault::Unread),
{
}

/// A tool comes from its path, taken from the root, where it has one, and else
/// from the cache by its version.
pub proof fn paths_come_before_versions(
    version: Option<VersionSpec>,
    path: Option<String>,
    root: Seq<char>,
    source: ToolSource,
)
    requires
        is_source_of(version, path, root, source),
    ensures
        path matches Some(p) ==> (source matches ToolSource::Local(l) && l@ == fspath::joined(
            root,
            p@,
        )),
        path is None ==> (source matches ToolSource::Cached(c) && (version matches Some(
            VersionSpec::Literal(v),
        ) && c@ == v@)),
{
}

/// A list file that cannot be read is named by its way from the root, with the
/// reason; of two lists the includes are reported first.
pub proof fn unread_lists_are_named(
    paths: ToolPaths,
    root: Seq<char>,
    files: FileTexts,
    e: ConfigError,
)
    requires
        paths.unread(root, files, e),
    ensures
        e matches ConfigError::ReadGlobFile { path, cause } && cause@ == files.at(path@).reason()
            && !(files.at(path@) is Text) && ({
            ||| paths.includes matches Some(GlobList::FromFile(p)) && path@ == fspath::joined(
                root,
                p@,
            )
            ||| paths.exclude matches Some(GlobList::FromFile(p)) && path@ == fspath::joined(
                root,
                p@,
            )
        }),
        (paths.includes matches Some(g) && g.patterns(root, files) is None) ==> (
        paths.includes matches Some(GlobList::FromFile(p)) && (
        e matches ConfigError::ReadGlobFile { path, .. } && path@ == fspath::joined(root, p@))),
{
}

/// What is wrong with the settings of a target is reported in this order: its
/// lists of patterns, its class path, a class path without a JVM target, and an
/// argument that cannot be given.
pub proof fn target_faults_in_order(
    d: Detekt,
    target: Option<&DetektTarget>,
    root: Seq<char>,
    files: FileTexts,
    e: ConfigError,
)
    requires
        !d.resolves(target, root, files),
        d.is_fault(target, root, files, e),
    ensures
        ({
            let scope = scope_or_default(d.target_paths(target), root, files, kotlin_patterns());
            let cp = d.target_classpath_entries(target, root, files);
            let bare = cp is Some && cp->0.len() > 0 && d.target_jvm_target(target) is None;
            &&& e is ReadGlobFile <==> scope is None
            &&& e is ReadPathList <==> scope is Some && cp is None
            &&& e is ClasspathWithoutJvmTarget <==> scope is Some && bare
            &&& e matches ConfigError::ClasspathWithoutJvmTarget { target: t } ==> t@ == (
            match target {
                Some(x) => x.name@,
                None => "default"@,
            })
            &&& e is OwnedOption <==> scope is Some && cp is Some && !bare
            &&& e matches ConfigError::OwnedOption { arg } ==> first_owned(d.target_args(target))
                == Some(arg@)
        }),
{
}

/// A fault of a section is reported with the tool or the argument that it is
/// about.
pub proof fn section_faults_are_named(e: ConfigError, f: SectionFault)
    requires
        e.is_section_fault(f),
    ensures
        f matches SectionFault::BothSources(t) ==> (e matches ConfigError::BothSources { tool }
            && tool@ == t),
        f matches SectionFault::NoSource(t) ==> (e matches ConfigError::NoSource { tool } && tool@
            == t),
        f matches SectionFault::Owned(a) ==> (e matches ConfigError::OwnedOption { arg } && arg@
            == a),
{
}

/// A version that is a reference becomes the literal version of its catalog, and
/// any other stays.
pub proof fn references_become_literal(
    before: Option<VersionSpec>,
    after: Option<VersionSpec>,
    root: Seq<char>,
    files: FileTexts,
    tool: Seq<char>,
)
    requires
        version_resolves_to(before, after, root, files, tool),
    ensures
        before matches Some(VersionSpec::Ref(r)) ==> (after matches Some(VersionSpec::Literal(v))
            && r.target(root, files, tool) == Ok::<Seq<char>, RefFault>(v@)),
        !(before matches Some(VersionSpec::Ref(_))) ==> after == before,
        !version_fails(before, root, files, tool),
{
}

} // verus!
