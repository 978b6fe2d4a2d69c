//! The command line of detekt, and what its output means.

use crate::cache;
use crate::cache::Cache;
use crate::cache::DownloadError;
use crate::cache::Downloader;
use crate::chars;
use crate::config;
use crate::config::Detekt;
use crate::config::ResolvedDetektTarget;
use crate::config::ToolSource;
use crate::formatters;
use crate::formatters::ToolOutput;
use crate::fspath;
use crate::text;
use vstd::prelude::*;

verus! {

/// How detekt is started.
#[derive(Debug, PartialEq, Eq)]
pub enum Invoker {
    /// As a jar, on the JVM.
    Jar(String),
    /// As a program of its own.
    Executable(String),
}

/// The generations of detekt's command line.
#[derive(Debug, Clone, Copy, PartialEq, Eq, Structural)]
pub enum CliMajor {
    V1,
    V2,
}

/// What a run of detekt came to.
#[derive(Debug, PartialEq, Eq)]
pub struct RunResult {
    pub findings: bool,
    pub stdout: String,
    /// The error output, JVM warnings aside.
    pub stderr: String,
}

/// The platform that detekt runs on, which decides how lists of paths are
/// written.
#[derive(Debug, Clone, Copy, PartialEq, Eq, Structural)]
pub enum Platform {
    /// Items are separated by `:` and cannot hold it.
    Unix,
    /// Items are separated by `;` and quoted where they hold it. They cannot hold
    /// a quote.
    Windows,
}

/// Why detekt did not run.
#[derive(Debug, PartialEq, Eq)]
pub enum DetektError {
    Download(DownloadError),
    /// The binary that the configuration names does not exist.
    Missing { path: String },
    /// A version of neither generation.
    Unsupported { version: String },
    /// `detekt --version` ended with another exit code than zero.
    VersionFailed,
    /// `detekt --version` told no version.
    NoVersion { output: String },
    /// There is no JVM.
    NoJava,
    /// A path holds a character that it cannot have in a list of paths.
    Separator(Platform),
    /// detekt ended with an error.
    Failed { target: String, code: i32, details: String },
}

/// The exit code in words.
pub open spec fn failure_kind(code: i32) -> Seq<char> {
    if code == 1 {
        "unexpected error"@
    } else if code == 3 {
        "invalid configuration"@
    } else {
        "failed"@
    }
}

impl DetektError {
    /// What the error says.
    pub open spec fn text(self) -> Seq<char> {
        match self {
            DetektError::Download(e) => e.message@,
            DetektError::Missing { path } => "detekt binary not found: "@ + path@,
            DetektError::Unsupported { version } => "unsupported detekt CLI version `"@ + version@
                + "`"@,
            DetektError::VersionFailed => "detekt --version failed"@,
            DetektError::NoVersion { output } => "could not determine detekt CLI version from `"@
                + output@ + "`"@,
            DetektError::NoJava => "`java` not found on PATH (set JAVA_HOME or install a JDK)"@,
            DetektError::Separator(Platform::Unix) =>
                "join detekt path list failed: path segment contains separator `:`"@,
            DetektError::Separator(Platform::Windows) =>
                "join detekt path list failed: path segment contains `\"`"@,
            DetektError::Failed { target, code, details } => {
                let head = "detekt target `"@ + target@ + "` "@ + failure_kind(code) + " (exit "@
                    + chars::signed_decimal(code as int);
                if details@.len() == 0 {
                    head + ")"@
                } else {
                    head + "):\n"@ + details@
                }
            },
        }
    }

    /// What the error says.
    pub fn message(&self) -> (r: String)
        ensures
            r@ == self.text(),
    {
        match self {
            DetektError::Download(e) => e.message.clone(),
            DetektError::Missing { path } => text::cat2("detekt binary not found: ", path),
            DetektError::Unsupported { version } => text::cat3(
                "unsupported detekt CLI version `",
                version,
                "`",
            ),
            DetektError::VersionFailed => "detekt --version failed".to_owned(),
            DetektError::NoVersion { output } => text::cat3(
                "could not determine detekt CLI version from `",
                output,
                "`",
            ),
            DetektError::NoJava =>
                "`java` not found on PATH (set JAVA_HOME or install a JDK)".to_owned(),
            DetektError::Separator(Platform::Unix) =>
                "join detekt path list failed: path segment contains separator `:`".to_owned(),
            DetektError::Separator(Platform::Windows) =>
                "join detekt path list failed: path segment contains `\"`".to_owned(),
            DetektError::Failed { target, code, details } => {
                let kind = if *code == 1 {
                    "unexpected error"
                } else if *code == 3 {
                    "invalid configuration"
                } else {
                    "failed"
                };
                let mut r = text::cat4("detekt target `", target, "` ", kind);
                r.push_str(" (exit ");
                r.push_str(&text::signed_decimal(*code));
                if details.as_str().is_empty() {
                    r.push_str(")");
                } else {
                    r.push_str("):\n");
                    r.push_str(details);
                }
                r
            },
        }
    }
}

/// The generation of a version: what stands before its first dot, without
/// leading `v`s.
pub open spec fn major_of(version: Seq<char>) -> Option<CliMajor> {
    let first = chars::split(chars::trim_start_char(version, 'v'), '.')[0];
    if first == "1"@ {
        Some(CliMajor::V1)
    } else if first == "2"@ {
        Some(CliMajor::V2)
    } else {
        None
    }
}

/// Tells the generation of a version.
pub fn parse_major(version: &str) -> (r: Result<CliMajor, DetektError>)
    ensures
        match r {
            Ok(m) => major_of(version@) == Some(m),
            Err(e) => major_of(version@) is None && (e matches DetektError::Unsupported {
                version: v,
            } && v@ == version@),
        },
{
    let parts = text::split(&text::trim_start_char(version, 'v'), '.');
    proof {
        reveal_strlit("1");
        reveal_strlit("2");
        chars::lemma_split_nonempty(chars::trim_start_char(version@, 'v'), '.');
        assert(chars::views(parts@)[0] == parts@[0]@);
        assert("1"@[0] != "2"@[0]);
    }
    if text::same(&parts[0], "1") {
        Ok(CliMajor::V1)
    } else if text::same(&parts[0], "2") {
        Ok(CliMajor::V2)
    } else {
        Err(DetektError::Unsupported { version: version.to_owned() })
    }
}

/// A word that looks like a version of one of the generations.
pub open spec fn looks_versioned(word: Seq<char>) -> bool {
    let w = chars::trim_start_char(word, 'v');
    w.len() > 0 && (w[0] == '1' || w[0] == '2')
}

/// The first word that looks like a version.
pub open spec fn first_versioned(words: Seq<Seq<char>>) -> Option<Seq<char>>
    decreases words.len(),
{
    if words.len() == 0 {
        None
    } else if looks_versioned(words[0]) {
        Some(words[0])
    } else {
        first_versioned(words.skip(1))
    }
}

fn find_versioned(words: &Vec<String>) -> (r: Option<String>)
    ensures
        chars::opt_view(r) == first_versioned(chars::views(words@)),
{
    let ghost all = chars::views(words@);
    let mut i: usize = 0;
    assert(all.skip(0) =~= all);
    while i < words.len()
        invariant
            i <= words.len(),
            all == chars::views(words@),
            first_versioned(all) == first_versioned(all.skip(i as int)),
        decreases words.len() - i,
    {
        assert(all.skip(i as int)[0] == words@[i as int]@);
        assert(all.skip(i as int).skip(1) =~= all.skip(i + 1));
        let bare = text::chars_of(&text::trim_start_char(&words[i], 'v'));
        if bare.len() > 0 && (bare[0] == '1' || bare[0] == '2') {
            return Some(words[i].clone());
        }
        i += 1;
    }
    None
}

/// Tells the generation from what `detekt --version` printed.
pub fn detect_major(output: &ToolOutput) -> (r: Result<CliMajor, DetektError>)
    ensures
        ({
            let all = output.stdout@ + "\n"@ + output.stderr@;
            if !output.success {
                r == Err::<CliMajor, _>(DetektError::VersionFailed)
            } else {
                match first_versioned(chars::words(all)) {
                    None => r matches Err(DetektError::NoVersion { output: o }) && o@
                        == chars::trim(all),
                    Some(w) => match major_of(w) {
                        Some(m) => r == Ok::<CliMajor, DetektError>(m),
                        None => r matches Err(DetektError::Unsupported { version }) && version@
                            == w,
                    },
                }
            }
        }),
{
    if !output.success {
        return Err(DetektError::VersionFailed);
    }
    let all = text::cat3(&output.stdout, "\n", &output.stderr);
    let words = text::words(&all);
    match find_versioned(&words) {
        Some(w) => parse_major(&w),
        None => Err(DetektError::NoVersion { output: text::trim(&all) }),
    }
}

/// detekt of a version, from the cache or the network. A version of neither
/// generation is not fetched.
pub open spec fn is_cached_detekt<D: Downloader>(
    version: Seq<char>,
    cache: Cache,
    downloader: &D,
    on_disk: Seq<Seq<char>>,
    r: Result<(Invoker, Option<CliMajor>), DetektError>,
) -> bool {
    match major_of(version) {
        None => r matches Err(DetektError::Unsupported { version: v }) && v@ == version,
        Some(m) => exists|f: Result<String, DownloadError>| #[trigger]
            cache::fetched(
                downloader,
                chars::replace(cache::DETEKT_URL@, "{v}"@, version),
                cache.detekt_file(version),
                fspath::holds_path(on_disk, cache.detekt_file(version)),
                f,
            ) && match f {
                Ok(p) => r == Ok::<_, DetektError>((Invoker::Jar(p), Some(m))),
                Err(e) => r == Err::<(Invoker, Option<CliMajor>), _>(DetektError::Download(e)),
            },
    }
}

/// The detekt that the settings give. A local one tells its generation only when
/// it is asked, and runs on the JVM where its name ends in `.jar`.
pub open spec fn is_detekt_invoker<D: Downloader>(
    d: Detekt,
    root: Seq<char>,
    cache: Cache,
    downloader: &D,
    on_disk: Seq<Seq<char>>,
    r: Result<(Invoker, Option<CliMajor>), DetektError>,
) -> bool {
    match d.path {
        Some(p) => {
            let path = fspath::joined(root, p@);
            if !fspath::holds_path(on_disk, path) {
                r matches Err(DetektError::Missing { path: q }) && q@ == path
            } else if fspath::suffix(path) == Some("jar"@) {
                r matches Ok((Invoker::Jar(j), None)) && j@ == path
            } else {
                r matches Ok((Invoker::Executable(j), None)) && j@ == path
            }
        },
        None => d.version matches Some(config::VersionSpec::Literal(v)) && is_cached_detekt(
            v@,
            cache,
            downloader,
            on_disk,
            r,
        ),
    }
}

fn ensure_detekt_artifact<D: Downloader>(
    version: &str,
    cache: &Cache,
    downloader: &D,
    on_disk: &Vec<String>,
) -> (r: Result<(Invoker, Option<CliMajor>), DetektError>)
    ensures
        is_cached_detekt(version@, *cache, downloader, chars::views(on_disk@), r),
{
    let major = match parse_major(version) {
        Ok(m) => m,
        Err(e) => {
            return Err(e);
        },
    };
    let present = fspath::holds(on_disk, &cache.detekt_path(version));
    match cache.ensure_detekt(version, present, downloader) {
        Ok(p) => Ok((Invoker::Jar(p), Some(major))),
        Err(e) => Err(DetektError::Download(e)),
    }
}

/// Gets detekt, and its generation where the version tells it; a local detekt
/// is to be asked with `--version` (see [`detect_major`]). `on_disk` lists the
/// files that are known to exist.
pub fn resolve_invoker<D: Downloader>(
    detekt: &Detekt,
    repo_root: &str,
    cache: &Cache,
    downloader: &D,
    on_disk: &Vec<String>,
) -> (r: Result<(Invoker, Option<CliMajor>), DetektError>)
    requires
        config::locatable(detekt.version, detekt.path),
    ensures
        is_detekt_invoker(*detekt, repo_root@, *cache, downloader, chars::views(on_disk@), r),
{
    match detekt.source(repo_root) {
        ToolSource::Cached(version) => ensure_detekt_artifact(
            &version,
            cache,
            downloader,
            on_disk,
        ),
        ToolSource::Local(path) => {
            if !fspath::holds(on_disk, &path) {
                return Err(DetektError::Missing { path });
            }
            let is_jar = match fspath::extension(&path) {
                Some(e) => text::same(&e, "jar"),
                None => false,
            };
            if is_jar {
                Ok((Invoker::Jar(path), None))
            } else {
                Ok((Invoker::Executable(path), None))
            }
        },
    }
}

/// The words that start detekt. Nothing where the JVM is needed and was not
/// found.
pub open spec fn command_prefix(invoker: Invoker, java: Option<Seq<char>>) -> Option<
    Seq<Seq<char>>,
> {
    match invoker {
        Invoker::Jar(jar) => match java {
            Some(j) => Some(seq![j, "-jar"@, jar@]),
            None => None,
        },
        Invoker::Executable(path) => Some(seq![path@]),
    }
}

/// The words that start detekt. `java` is where the JVM was found.
pub fn build_command(invoker: &Invoker, java: Option<String>) -> (r: Result<
    Vec<String>,
    DetektError,
>)
    ensures
        match r {
            Ok(v) => command_prefix(*invoker, chars::opt_view(java)) == Some(chars::views(v@)),
            Err(e) => command_prefix(*invoker, chars::opt_view(java)) is None && e
                == DetektError::NoJava,
        },
{
    let mut v: Vec<String> = Vec::new();
    match invoker {
        Invoker::Jar(jar) => match java {
            Some(j) => {
                let ghost jv = j@;
                v.push(j);
                v.push("-jar".to_owned());
                v.push(jar.clone());
                assert(chars::views(v@) =~= seq![jv, "-jar"@, jar@]);
                Ok(v)
            },
            None => Err(DetektError::NoJava),
        },
        Invoker::Executable(path) => {
            v.push(path.clone());
            assert(chars::views(v@) =~= seq![path@]);
            Ok(v)
        },
    }
}

impl Platform {
    /// The separator of paths in a list.
    pub open spec fn list_separator(self) -> char {
        match self {
            Platform::Unix => ':',
            Platform::Windows => ';',
        }
    }

    /// The character that a path in a list cannot hold.
    pub open spec fn forbidden_in_lists(self) -> char {
        match self {
            Platform::Unix => ':',
            Platform::Windows => '"',
        }
    }

    /// A path as it stands in a list.
    pub open spec fn list_item(self, path: Seq<char>) -> Seq<char> {
        if self == Platform::Windows && path.contains(';') {
            seq!['"'] + path + seq!['"']
        } else {
            path
        }
    }

    /// Paths as they stand in a list.
    pub open spec fn list_items(self, paths: Seq<Seq<char>>) -> Seq<Seq<char>> {
        paths.map_values(|p: Seq<char>| self.list_item(p))
    }
}

/// The paths can be written as a list.
pub open spec fn joinable(paths: Seq<Seq<char>>, platform: Platform) -> bool {
    forall|i: int|
        0 <= i < paths.len() ==> !(#[trigger] paths[i]).contains(platform.forbidden_in_lists())
}

/// A list of paths, as the platform writes it.
pub open spec fn path_list(paths: Seq<Seq<char>>, platform: Platform) -> Seq<char> {
    chars::join(platform.list_items(paths), seq![platform.list_separator()])
}

/// The list can be the value of an option. The first generation never asks
/// whether an item holds the separator.
pub open spec fn acceptable(items: Seq<Seq<char>>, major: CliMajor, platform: Platform) -> bool {
    major == CliMajor::V2 ==> joinable(items, platform)
}

/// A list as the value of an option: separated by `,` for the first generation,
/// and a list of paths of the platform for the second.
pub open spec fn cli_list(items: Seq<Seq<char>>, major: CliMajor, platform: Platform) -> Seq<char> {
    match major {
        CliMajor::V1 => chars::join(items, seq![',']),
        CliMajor::V2 => path_list(items, platform),
    }
}

/// An option with a list; nothing where the list is empty.
pub open spec fn listed(flag: Seq<char>, items: Seq<Seq<char>>, list: Seq<char>) -> Seq<Seq<char>> {
    if items.len() == 0 {
        Seq::empty()
    } else {
        seq![flag, list]
    }
}

/// An option with a list, as the generation writes it.
pub open spec fn cli_listed(
    flag: Seq<char>,
    items: Seq<Seq<char>>,
    major: CliMajor,
    platform: Platform,
) -> Seq<Seq<char>> {
    listed(flag, items, cli_list(items, major, platform))
}

/// An option with a value, where there is one.
pub open spec fn valued(flag: Seq<char>, value: Option<String>) -> Seq<Seq<char>> {
    match value {
        Some(v) => seq![flag, v@],
        None => Seq::empty(),
    }
}

/// The same option once for each item.
pub open spec fn repeated(flag: Seq<char>, items: Seq<Seq<char>>) -> Seq<Seq<char>>
    decreases items.len(),
{
    if items.len() == 0 {
        Seq::empty()
    } else {
        repeated(flag, items.drop_last()) + seq![flag, items.last()]
    }
}

/// The arguments of detekt.
pub open spec fn arguments(
    major: CliMajor,
    platform: Platform,
    target: ResolvedDetektTarget,
    root: Seq<char>,
    files: Seq<Seq<char>>,
) -> Seq<Seq<char>> {
    chars::views(target.args@) + seq!["--base-path"@, root] + (
    if target.build_upon_default_config {
        seq!["--build-upon-default-config"@]
    } else {
        Seq::empty()
    }) + cli_listed("--config"@, chars::views(target.configs@), major, platform) + cli_listed(
        "--config-resource"@,
        chars::views(target.config_resources@),
        major,
        platform,
    ) + valued("--baseline"@, target.baseline) + cli_listed(
        "--plugins"@,
        chars::views(target.plugins@),
        major,
        platform,
    ) + repeated("--report"@, chars::views(target.reports@)) + listed(
        "--classpath"@,
        chars::views(target.classpath@),
        path_list(chars::views(target.classpath@), platform),
    ) + valued("--jvm-target"@, target.jvm_target) + (match major {
        CliMajor::V1 => Seq::empty(),
        CliMajor::V2 => seq![
            "--analysis-mode"@,
            if target.classpath@.len() == 0 {
                "light"@
            } else {
                "full"@
            },
        ],
    }) + cli_listed("--input"@, fspath::below(root, files), major, platform)
}

/// The lists of a target and the files can all be written.
pub open spec fn writable(
    major: CliMajor,
    platform: Platform,
    target: ResolvedDetektTarget,
    root: Seq<char>,
    files: Seq<Seq<char>>,
) -> bool {
    &&& acceptable(chars::views(target.configs@), major, platform)
    &&& acceptable(chars::views(target.config_resources@), major, platform)
    &&& acceptable(chars::views(target.plugins@), major, platform)
    &&& joinable(chars::views(target.classpath@), platform)
    &&& acceptable(fspath::below(root, files), major, platform)
}

/// A path as it stands in a list; nothing where it cannot be in one.
fn list_item(path: &str, platform: Platform) -> (r: Option<String>)
    ensures
        match r {
            Some(s) => !path@.contains(platform.forbidden_in_lists()) && s@ == platform.list_item(
                path@,
            ),
            None => path@.contains(platform.forbidden_in_lists()),
        },
{
    match platform {
        Platform::Unix => {
            if text::contains_char(path, ':') {
                return None;
            }
            Some(path.to_owned())
        },
        Platform::Windows => {
            if text::contains_char(path, '"') {
                return None;
            }
            if text::contains_char(path, ';') {
                proof {
                    reveal_strlit("\"");
                    assert("\""@ =~= seq!['"']);
                }
                Some(text::cat3("\"", path, "\""))
            } else {
                Some(path.to_owned())
            }
        },
    }
}

/// A list of paths, as the platform writes it.
pub fn join_platform_paths(items: &Vec<String>, platform: Platform) -> (r: Result<
    String,
    DetektError,
>)
    ensures
        match r {
            Ok(s) => joinable(chars::views(items@), platform) && s@ == path_list(
                chars::views(items@),
                platform,
            ),
            Err(e) => !joinable(chars::views(items@), platform) && e == DetektError::Separator(
                platform,
            ),
        },
{
    let ghost all = chars::views(items@);
    let mut written: Vec<String> = Vec::new();
    let mut i: usize = 0;
    assert(chars::views(written@) =~= platform.list_items(all.take(0)));
    while i < items.len()
        invariant
            i <= items.len(),
            all == chars::views(items@),
            forall|k: int|
                0 <= k < i ==> !(#[trigger] all[k]).contains(platform.forbidden_in_lists()),
            chars::views(written@) == platform.list_items(all.take(i as int)),
        decreases items.len() - i,
    {
        let ghost before = chars::views(written@);
        assert(all[i as int] == items@[i as int]@);
        match list_item(&items[i], platform) {
            Some(s) => {
                let ghost x = s@;
                written.push(s);
                assert(chars::views(written@) =~= before.push(x));
                assert(platform.list_items(all.take(i + 1)) =~= before.push(x));
            },
            None => {
                return Err(DetektError::Separator(platform));
            },
        }
        i += 1;
    }
    assert(all.take(i as int) =~= all);
    proof {
        reveal_strlit(":");
        reveal_strlit(";");
        assert(":"@ =~= seq![':']);
        assert(";"@ =~= seq![';']);
    }
    let sep = match platform {
        Platform::Unix => ":",
        Platform::Windows => ";",
    };
    Ok(text::join(&written, sep))
}

fn join_cli_paths(items: &Vec<String>, major: CliMajor, platform: Platform) -> (r: Result<
    String,
    DetektError,
>)
    ensures
        match r {
            Ok(s) => acceptable(chars::views(items@), major, platform) && s@ == cli_list(
                chars::views(items@),
                major,
                platform,
            ),
            Err(e) => !acceptable(chars::views(items@), major, platform) && e
                == DetektError::Separator(platform),
        },
{
    match major {
        CliMajor::V1 => {
            proof {
                reveal_strlit(",");
                assert(","@ =~= seq![',']);
            }
            Ok(text::join(items, ","))
        },
        CliMajor::V2 => join_platform_paths(items, platform),
    }
}

fn push_pair(args: &mut Vec<String>, flag: &str, value: String)
    ensures
        chars::views(final(args)@) == chars::views(old(args)@) + seq![flag@, value@],
{
    let ghost before = chars::views(args@);
    let ghost v = value@;
    args.push(flag.to_owned());
    args.push(value);
    assert(chars::views(args@) =~= before + seq![flag@, v]);
}

fn push_joined(
    args: &mut Vec<String>,
    flag: &str,
    items: &Vec<String>,
    major: CliMajor,
    platform: Platform,
) -> (r: Result<(), DetektError>)
    ensures
        match r {
            Ok(_) => acceptable(chars::views(items@), major, platform) && chars::views(
                final(args)@,
            ) == chars::views(old(args)@) + cli_listed(
                flag@,
                chars::views(items@),
                major,
                platform,
            ),
            Err(e) => !acceptable(chars::views(items@), major, platform) && e
                == DetektError::Separator(platform),
        },
{
    if items.len() == 0 {
        assert(chars::views(args@) + Seq::<Seq<char>>::empty() =~= chars::views(args@));
        return Ok(());
    }
    match join_cli_paths(items, major, platform) {
        Ok(s) => {
            push_pair(args, flag, s);
            Ok(())
        },
        Err(e) => Err(e),
    }
}

fn push_valued(args: &mut Vec<String>, flag: &str, value: &Option<String>)
    ensures
        chars::views(final(args)@) == chars::views(old(args)@) + valued(flag@, *value),
{
    match value {
        Some(v) => push_pair(args, flag, v.clone()),
        None => {
            assert(chars::views(args@) + Seq::<Seq<char>>::empty() =~= chars::views(args@));
        },
    }
}

fn push_repeated(args: &mut Vec<String>, flag: &str, items: &Vec<String>)
    ensures
        chars::views(final(args)@) == chars::views(old(args)@) + repeated(
            flag@,
            chars::views(items@),
        ),
{
    let ghost all = chars::views(items@);
    let ghost start = chars::views(args@);
    let mut i: usize = 0;
    assert(start + repeated(flag@, all.take(0)) =~= start);
    while i < items.len()
        invariant
            i <= items.len(),
            all == chars::views(items@),
            chars::views(args@) == start + repeated(flag@, all.take(i as int)),
        decreases items.len() - i,
    {
        let ghost before = repeated(flag@, all.take(i as int));
        assert(all.take(i + 1).drop_last() =~= all.take(i as int));
        assert(all[i as int] == items@[i as int]@);
        push_pair(args, flag, items[i].clone());
        assert(start + before + seq![flag@, all[i as int]] =~= start + (before + seq![
            flag@,
            all[i as int],
        ]));
        i += 1;
    }
    assert(all.take(i as int) =~= all);
}

/// The arguments of detekt for the files of a target.
pub fn build_args(
    major: CliMajor,
    platform: Platform,
    target: &ResolvedDetektTarget,
    repo_root: &str,
    files: &Vec<String>,
) -> (r: Result<Vec<String>, DetektError>)
    ensures
        match r {
            Ok(v) => writable(major, platform, *target, repo_root@, chars::views(files@))
                && chars::views(v@) == arguments(
                major,
                platform,
                *target,
                repo_root@,
                chars::views(files@),
            ),
            Err(e) => !writable(major, platform, *target, repo_root@, chars::views(files@)) && e
                == DetektError::Separator(platform),
        },
{
    let mut args = text::copy_list(&target.args);
    push_pair(&mut args, "--base-path", repo_root.to_owned());
    let ghost based = chars::views(args@);
    if target.build_upon_default_config {
        args.push("--build-upon-default-config".to_owned());
        assert(chars::views(args@) =~= based + seq!["--build-upon-default-config"@]);
    } else {
        assert(based + Seq::<Seq<char>>::empty() =~= based);
    }
    if let Err(e) = push_joined(&mut args, "--config", &target.configs, major, platform) {
        return Err(e);
    }
    if let Err(e) = push_joined(
        &mut args,
        "--config-resource",
        &target.config_resources,
        major,
        platform,
    ) {
        return Err(e);
    }
    push_valued(&mut args, "--baseline", &target.baseline);
    if let Err(e) = push_joined(&mut args, "--plugins", &target.plugins, major, platform) {
        return Err(e);
    }
    push_repeated(&mut args, "--report", &target.reports);
    if target.classpath.len() > 0 {
        match join_platform_paths(&target.classpath, platform) {
            Ok(s) => push_pair(&mut args, "--classpath", s),
            Err(e) => {
                return Err(e);
            },
        }
    } else {
        assert(chars::views(args@) + Seq::<Seq<char>>::empty() =~= chars::views(args@));
    }
    push_valued(&mut args, "--jvm-target", &target.jvm_target);
    match major {
        CliMajor::V1 => {
            assert(chars::views(args@) + Seq::<Seq<char>>::empty() =~= chars::views(args@));
        },
        CliMajor::V2 => {
            let mode = if target.classpath.len() == 0 {
                "light"
            } else {
                "full"
            };
            push_pair(&mut args, "--analysis-mode", mode.to_owned());
        },
    }
    let inputs = fspath::join_all(repo_root, files);
    if let Err(e) = push_joined(&mut args, "--input", &inputs, major, platform) {
        return Err(e);
    }
    Ok(args)
}

/// The whole command line of detekt for the files of a target.
pub fn command_line(
    invoker: &Invoker,
    major: CliMajor,
    platform: Platform,
    target: &ResolvedDetektTarget,
    repo_root: &str,
    files: &Vec<String>,
    java: Option<String>,
) -> (r: Result<Vec<String>, DetektError>)
    ensures
        ({
            let prefix = command_prefix(*invoker, chars::opt_view(java));
            let ok = writable(major, platform, *target, repo_root@, chars::views(files@));
            if !ok {
                r == Err::<Vec<String>, _>(DetektError::Separator(platform))
            } else {
                match prefix {
                    None => r == Err::<Vec<String>, _>(DetektError::NoJava),
                    Some(p) => r matches Ok(v) && chars::views(v@) == p + arguments(
                        major,
                        platform,
                        *target,
                        repo_root@,
                        chars::views(files@),
                    ),
                }
            }
        }),
{
    let args = match build_args(major, platform, target, repo_root, files) {
        Ok(a) => a,
        Err(e) => {
            return Err(e);
        },
    };
    match build_command(invoker, java) {
        Ok(mut words) => {
            text::append(&mut words, &args);
            Ok(words)
        },
        Err(e) => Err(e),
    }
}

/// The exit code of a process; one that has none counts as `-1`.
pub open spec fn code_of(output: ToolOutput) -> int {
    match output.code {
        Some(c) => c as int,
        None => -1,
    }
}

/// What a finished run of detekt means. Exit code `2` tells of findings.
pub fn classify_output(target: &ResolvedDetektTarget, output: &ToolOutput) -> (r: Result<
    RunResult,
    DetektError,
>)
    ensures
        match r {
            Ok(res) => (code_of(*output) == 0 || code_of(*output) == 2) && res.findings == (code_of(
                *output,
            ) == 2) && res.stdout == output.stdout && res.stderr@ == formatters::diagnostics(
                output.stderr@,
            ),
            Err(e) => code_of(*output) != 0 && code_of(*output) != 2 && (
            e matches DetektError::Failed { target: t, code, details } && t == target.name && code
                == code_of(*output) && details@ == formatters::details_of(
                output.stdout@,
                formatters::diagnostics(output.stderr@),
            )),
        },
{
    let code: i32 = match output.code {
        Some(c) => c,
        None => -1,
    };
    let stderr = formatters::filter_jvm_noise(&output.stderr);
    if code == 0 || code == 2 {
        return Ok(RunResult { findings: code == 2, stdout: output.stdout.clone(), stderr });
    }
    let details = formatters::output_details(&output.stdout, &stderr);
    Err(DetektError::Failed { target: target.name.clone(), code, details })
}

/// A target without a class path is analysed lightly, one with a class path in
/// full.
pub proof fn analysis_follows_the_classpath(
    platform: Platform,
    target: ResolvedDetektTarget,
    root: Seq<char>,
    files: Seq<Seq<char>>,
)
    ensures
        exists|i: int|
            0 <= i < arguments(CliMajor::V2, platform, target, root, files).len() - 1
                && #[trigger] arguments(CliMajor::V2, platform, target, root, files)[i]
                == "--analysis-mode"@
                && arguments(CliMajor::V2, platform, target, root, files)[i + 1] == (
            if target.classpath@.len() == 0 {
                "light"@
            } else {
                "full"@
            }),
{
    let all = arguments(CliMajor::V2, platform, target, root, files);
    let tail = cli_listed("--input"@, fspath::below(root, files), CliMajor::V2, platform);
    let n = all.len() - tail.len();
    assert(all[n - 2] == "--analysis-mode"@);
    assert(all[n - 1] == if target.classpath@.len() == 0 {
        "light"@
    } else {
        "full"@
    });
}

/// A version is of the first or the second generation just where, behind any
/// leading `v`s, it is `1` or `2` or goes on with a dot after it.
pub proof fn generations_by_version(vs: Seq<char>, d: char, tail: Seq<char>)
    requires
        forall|i: int| 0 <= i < vs.len() ==> #[trigger] vs[i] == 'v',
        d != 'v',
    ensures
        ({
            let version = vs.push(d) + tail;
            &&& (tail.len() == 0 || tail[0] == '.') && d == '1' ==> major_of(version) == Some(
                CliMajor::V1,
            )
            &&& (tail.len() == 0 || tail[0] == '.') && d == '2' ==> major_of(version) == Some(
                CliMajor::V2,
            )
            &&& tail.len() > 0 && tail[0] != '.' ==> major_of(version) is None
            &&& d != '1' && d != '2' ==> major_of(version) is None
            &&& looks_versioned(version) <==> d == '1' || d == '2'
        }),
        major_of(vs) is None,
        !looks_versioned(vs),
{
    reveal_strlit("1");
    reveal_strlit("2");
    assert("1"@ =~= seq!['1']);
    assert("2"@ =~= seq!['2']);
    let version = vs.push(d) + tail;
    let e = Seq::<char>::empty();
    lemma_leading_vs(vs, e);
    assert(vs + e =~= vs);
    assert(chars::split(e, '.') =~= seq![e]);
    let w = seq![d] + tail;
    lemma_leading_vs(vs, w);
    assert(vs + w =~= version);
    let first = chars::split(w, '.')[0];
    chars::lemma_split_nonempty(tail, '.');
    assert(w.skip(1) =~= tail);
    if d == '.' {
        assert(first =~= e);
    } else {
        let t = chars::split(tail, '.')[0];
        assert(first == seq![d] + t);
        assert(first[0] == d);
        if tail.len() == 0 || tail[0] == '.' {
            assert(t =~= e);
            assert(first =~= seq![d]);
        } else {
            chars::lemma_split_nonempty(tail.skip(1), '.');
            assert(t.len() > 0);
        }
    }
}

proof fn lemma_leading_vs(vs: Seq<char>, w: Seq<char>)
    requires
        forall|i: int| 0 <= i < vs.len() ==> #[trigger] vs[i] == 'v',
        w.len() == 0 || w[0] != 'v',
    ensures
        chars::trim_start_char(vs + w, 'v') == w,
    decreases vs.len(),
{
    if vs.len() > 0 {
        assert(vs[0] == 'v');
        assert((vs + w).skip(1) =~= vs.skip(1) + w);
        lemma_leading_vs(vs.skip(1), w);
    } else {
        assert(vs + w =~= w);
    }
}

/// The generation of a local detekt shows in the first word of what it prints
/// that looks like a version.
pub proof fn first_version_counts(words: Seq<Seq<char>>, k: int)
    requires
        0 <= k < words.len(),
        looks_versioned(words[k]),
        forall|j: int| 0 <= j < k ==> !looks_versioned(#[trigger] words[j]),
    ensures
        first_versioned(words) == Some(words[k]),
    decreases words.len(),
{
    if k > 0 {
        let t = words.skip(1);
        assert(!looks_versioned(words[0]));
        assert forall|j: int| 0 <= j < k - 1 implies !looks_versioned(#[trigger] t[j]) by {
            assert(t[j] == words[j + 1]);
        }
        first_version_counts(t, k - 1);
    }
}

/// Where no word looks like a version none is found.
pub proof fn no_version_is_found(words: Seq<Seq<char>>)
    requires
        forall|j: int| 0 <= j < words.len() ==> !looks_versioned(#[trigger] words[j]),
    ensures
        first_versioned(words) is None,
    decreases words.len(),
{
    if words.len() > 0 {
        let t = words.skip(1);
        assert(!looks_versioned(words[0]));
        assert forall|j: int| 0 <= j < t.len() implies !looks_versioned(#[trigger] t[j]) by {
            assert(t[j] == words[j + 1]);
        }
        no_version_is_found(t);
    }
}

/// A jar is run by the JVM that was found, and not without one; an executable is
/// run as it is.
pub proof fn jars_need_the_jvm(path: String, java: Seq<char>)
    ensures
        command_prefix(Invoker::Jar(path), None) is None,
        command_prefix(Invoker::Jar(path), Some(java)) == Some(seq![java, "-jar"@, path@]),
        command_prefix(Invoker::Executable(path), None) == Some(seq![path@]),
        command_prefix(Invoker::Executable(path), Some(java)) == Some(seq![path@]),
{
}

/// Exit code one is an unexpected error, three an invalid configuration.
pub proof fn failures_by_code(code: i32)
    ensures
        failure_kind(1) == "unexpected error"@,
        failure_kind(3) == "invalid configuration"@,
        code != 1 && code != 3 ==> failure_kind(code) == "failed"@,
{
}

/// On Unix a list of paths is read back by splitting it at colons; a path that
/// holds one cannot be in a list.
pub proof fn unix_lists_are_read_back(paths: Seq<Seq<char>>)
    requires
        paths.len() > 0,
    ensures
        joinable(paths, Platform::Unix) <==> forall|i: int|
            0 <= i < paths.len() ==> !(#[trigger] paths[i]).contains(':'),
        joinable(paths, Platform::Unix) ==> chars::split(path_list(paths, Platform::Unix), ':')
            == paths,
{
    assert(Platform::Unix.list_items(paths) =~= paths);
    if joinable(paths, Platform::Unix) {
        lemma_split_join(paths, ':');
    }
}

proof fn lemma_split_join(ps: Seq<Seq<char>>, c: char)
    requires
        ps.len() > 0,
        forall|i: int| 0 <= i < ps.len() ==> !(#[trigger] ps[i]).contains(c),
    ensures
        chars::split(chars::join(ps, seq![c]), c) == ps,
    decreases ps.len(),
{
    chars::lemma_split_single(ps.last(), c);
    if ps.len() == 1 {
        assert(ps =~= seq![ps.last()]);
    } else {
        let t = ps.drop_last();
        lemma_split_join(t, c);
        let a = chars::join(t, seq![c]);
        chars::lemma_split_append(a, c, ps.last());
        assert(a + seq![c] + ps.last() =~= a.push(c) + ps.last());
        assert(t + seq![ps.last()] =~= ps);
    }
}

/// On Windows paths in a list are parted by semicolons, and one that holds a
/// semicolon stands in double quotes; a path that holds a double quote cannot be
/// in a list.
pub proof fn windows_lists_quote_semicolons(path: Seq<char>, paths: Seq<Seq<char>>)
    ensures
        path.contains(';') ==> Platform::Windows.list_item(path) == seq!['"'] + path + seq!['"'],
        !path.contains(';') ==> Platform::Windows.list_item(path) == path,
        path_list(paths, Platform::Windows) == chars::join(
            paths.map_values(|p: Seq<char>| Platform::Windows.list_item(p)),
            seq![';'],
        ),
        joinable(paths, Platform::Windows) <==> forall|i: int|
            0 <= i < paths.len() ==> !(#[trigger] paths[i]).contains('"'),
{
}

/// The first generation takes lists parted by commas, of any items; the second
/// takes lists of paths of the platform, and only items that can be in one.
pub proof fn lists_by_generation(items: Seq<Seq<char>>, platform: Platform)
    ensures
        acceptable(items, CliMajor::V1, platform),
        acceptable(items, CliMajor::V2, platform) <==> joinable(items, platform),
        cli_list(items, CliMajor::V2, platform) == path_list(items, platform),
        items.len() > 0 && (forall|i: int|
            0 <= i < items.len() ==> !(#[trigger] items[i]).contains(',')) ==> chars::split(
            cli_list(items, CliMajor::V1, platform),
            ',',
        ) == items,
{
    if items.len() > 0 && forall|i: int|
        0 <= i < items.len() ==> !(#[trigger] items[i]).contains(',') {
        lemma_split_join(items, ',');
    }
}

/// The arguments hold the option and behind it its value.
pub open spec fn has_option(args: Seq<Seq<char>>, flag: Seq<char>, value: Seq<char>) -> bool {
    exists|i: int|
        0 <= i < args.len() - 1 && #[trigger] args[i] == flag && args[i + 1] == value
}

proof fn lemma_option_between(
    a: Seq<Seq<char>>,
    option: Seq<Seq<char>>,
    b: Seq<Seq<char>>,
    flag: Seq<char>,
    value: Seq<char>,
)
    requires
        option == seq![flag, value],
    ensures
        has_option(a + option + b, flag, value),
{
    let all = a + option + b;
    let n = a.len() as int;
    assert(all[n] == flag);
    assert(all[n + 1] == value);
}

/// Each list and each value that a target sets is told to detekt by its option.
pub proof fn settings_are_told_by_options(
    major: CliMajor,
    platform: Platform,
    target: ResolvedDetektTarget,
    root: Seq<char>,
    files: Seq<Seq<char>>,
)
    ensures
        ({
            let all = arguments(major, platform, target, root, files);
            let configs = chars::views(target.configs@);
            let resources = chars::views(target.config_resources@);
            let plugins = chars::views(target.plugins@);
            let classpath = chars::views(target.classpath@);
            &&& configs.len() > 0 ==> has_option(
                all,
                "--config"@,
                cli_list(configs, major, platform),
            )
            &&& resources.len() > 0 ==> has_option(
                all,
                "--config-resource"@,
                cli_list(resources, major, platform),
            )
            &&& target.baseline matches Some(b) ==> has_option(all, "--baseline"@, b@)
            &&& plugins.len() > 0 ==> has_option(
                all,
                "--plugins"@,
                cli_list(plugins, major, platform),
            )
            &&& classpath.len() > 0 ==> has_option(
                all,
                "--classpath"@,
                path_list(classpath, platform),
            )
            &&& target.jvm_target matches Some(j) ==> has_option(all, "--jvm-target"@, j@)
        }),
{
    let configs = chars::views(target.configs@);
    let resources = chars::views(target.config_resources@);
    let plugins = chars::views(target.plugins@);
    let reports = chars::views(target.reports@);
    let classpath = chars::views(target.classpath@);
    let a0 = chars::views(target.args@) + seq!["--base-path"@, root];
    let a1: Seq<Seq<char>> = if target.build_upon_default_config {
        seq!["--build-upon-default-config"@]
    } else {
        Seq::empty()
    };
    let a2 = cli_listed("--config"@, configs, major, platform);
    let a3 = cli_listed("--config-resource"@, resources, major, platform);
    let a4 = valued("--baseline"@, target.baseline);
    let a5 = cli_listed("--plugins"@, plugins, major, platform);
    let a6 = repeated("--report"@, reports);
    let a7 = listed("--classpath"@, classpath, path_list(classpath, platform));
    let a8 = valued("--jvm-target"@, target.jvm_target);
    let a9: Seq<Seq<char>> = match major {
        CliMajor::V1 => Seq::empty(),
        CliMajor::V2 => seq![
            "--analysis-mode"@,
            if target.classpath@.len() == 0 {
                "light"@
            } else {
                "full"@
            },
        ],
    };
    let a10 = cli_listed("--input"@, fspath::below(root, files), major, platform);
    let all = arguments(major, platform, target, root, files);
    assert(all == a0 + a1 + a2 + a3 + a4 + a5 + a6 + a7 + a8 + a9 + a10);
    lemma_parts_in_a_row(a0, a1, a2, a3, a4, a5, a6, a7, a8, a9, a10);
    let h1 = a0 + a1;
    let h2 = h1 + a2;
    let h3 = h2 + a3;
    let h4 = h3 + a4;
    let h5 = h4 + a5;
    let h6 = h5 + a6;
    let h7 = h6 + a7;
    let t9 = a9 + a10;
    let t8 = a8 + t9;
    let t7 = a7 + t8;
    let t6 = a6 + t7;
    let t5 = a5 + t6;
    let t4 = a4 + t5;
    let t3 = a3 + t4;
    if configs.len() > 0 {
        lemma_option_between(h1, a2, t3, "--config"@, cli_list(configs, major, platform));
    }
    if resources.len() > 0 {
        lemma_option_between(
            h2,
            a3,
            t4,
            "--config-resource"@,
            cli_list(resources, major, platform),
        );
    }
    if let Some(b) = target.baseline {
        lemma_option_between(h3, a4, t5, "--baseline"@, b@);
    }
    if plugins.len() > 0 {
        lemma_option_between(h4, a5, t6, "--plugins"@, cli_list(plugins, major, platform));
    }
    if classpath.len() > 0 {
        lemma_option_between(h6, a7, t8, "--classpath"@, path_list(classpath, platform));
    }
    if let Some(j) = target.jvm_target {
        lemma_option_between(h7, a8, t9, "--jvm-target"@, j@);
    }
}

/// Each report of a target is told to detekt by an option of its own.
pub proof fn reports_are_told_one_by_one(
    major: CliMajor,
    platform: Platform,
    target: ResolvedDetektTarget,
    root: Seq<char>,
    files: Seq<Seq<char>>,
    k: int,
)
    requires
        0 <= k < target.reports@.len(),
    ensures
        has_option(
            arguments(major, platform, target, root, files),
            "--report"@,
            target.reports@[k]@,
        ),
{
    let configs = chars::views(target.configs@);
    let resources = chars::views(target.config_resources@);
    let plugins = chars::views(target.plugins@);
    let reports = chars::views(target.reports@);
    let classpath = chars::views(target.classpath@);
    let a0 = chars::views(target.args@) + seq!["--base-path"@, root];
    let a1: Seq<Seq<char>> = if target.build_upon_default_config {
        seq!["--build-upon-default-config"@]
    } else {
        Seq::empty()
    };
    let a2 = cli_listed("--config"@, configs, major, platform);
    let a3 = cli_listed("--config-resource"@, resources, major, platform);
    let a4 = valued("--baseline"@, target.baseline);
    let a5 = cli_listed("--plugins"@, plugins, major, platform);
    let a6 = repeated("--report"@, reports);
    let a7 = listed("--classpath"@, classpath, path_list(classpath, platform));
    let a8 = valued("--jvm-target"@, target.jvm_target);
    let a9: Seq<Seq<char>> = match major {
        CliMajor::V1 => Seq::empty(),
        CliMajor::V2 => seq![
            "--analysis-mode"@,
            if target.classpath@.len() == 0 {
                "light"@
            } else {
                "full"@
            },
        ],
    };
    let a10 = cli_listed("--input"@, fspath::below(root, files), major, platform);
    let all = arguments(major, platform, target, root, files);
    assert(all == a0 + a1 + a2 + a3 + a4 + a5 + a6 + a7 + a8 + a9 + a10);
    lemma_parts_in_a_row(a0, a1, a2, a3, a4, a5, a6, a7, a8, a9, a10);
    let h5 = a0 + a1 + a2 + a3 + a4 + a5;
    let t7 = a7 + (a8 + (a9 + a10));
    assert(h5 + a6 + t7 == all);
    assert(reports[k] == target.reports@[k]@);
    lemma_repeated("--report"@, reports, k);
    lemma_option_inside(h5, a6, t7, 2 * k);
}

proof fn lemma_option_inside(
    a: Seq<Seq<char>>,
    part: Seq<Seq<char>>,
    b: Seq<Seq<char>>,
    i: int,
)
    requires
        0 <= i < part.len() - 1,
    ensures
        has_option(a + part + b, part[i], part[i + 1]),
{
    let all = a + part + b;
    let n = a.len() + i;
    assert(all[n] == part[i]);
    assert(all[n + 1] == part[i + 1]);
}

/// The arguments of detekt begin with the free ones and the root, and end with
/// the files; nothing is told but what is set.
pub proof fn nothing_else_is_told(
    major: CliMajor,
    platform: Platform,
    target: ResolvedDetektTarget,
    root: Seq<char>,
    files: Seq<Seq<char>>,
)
    ensures
        ({
            let all = arguments(major, platform, target, root, files);
            let inputs = files.map_values(|f: Seq<char>| fspath::joined(root, f));
            let n = target.args@.len() as int;
            &&& all.take(n) == chars::views(target.args@)
            &&& all[n] == "--base-path"@ && all[n + 1] == root
            &&& target.build_upon_default_config ==> all[n + 2] == "--build-upon-default-config"@
            &&& files.len() > 0 ==> all[all.len() - 2] == "--input"@ && all[all.len() - 1]
                == cli_list(inputs, major, platform)
            &&& all.len() == n + 2 + (if target.build_upon_default_config {
                1int
            } else {
                0int
            }) + (if target.configs@.len() > 0 {
                2int
            } else {
                0int
            }) + (if target.config_resources@.len() > 0 {
                2int
            } else {
                0int
            }) + (if target.baseline is Some {
                2int
            } else {
                0int
            }) + (if target.plugins@.len() > 0 {
                2int
            } else {
                0int
            }) + 2 * target.reports@.len() + (if target.classpath@.len() > 0 {
                2int
            } else {
                0int
            }) + (if target.jvm_target is Some {
                2int
            } else {
                0int
            }) + (if major == CliMajor::V2 {
                2int
            } else {
                0int
            }) + (if files.len() > 0 {
                2int
            } else {
                0int
            })
        }),
{
    let configs = chars::views(target.configs@);
    let resources = chars::views(target.config_resources@);
    let plugins = chars::views(target.plugins@);
    let reports = chars::views(target.reports@);
    let classpath = chars::views(target.classpath@);
    let a0 = chars::views(target.args@) + seq!["--base-path"@, root];
    let a1: Seq<Seq<char>> = if target.build_upon_default_config {
        seq!["--build-upon-default-config"@]
    } else {
        Seq::empty()
    };
    let a2 = cli_listed("--config"@, configs, major, platform);
    let a3 = cli_listed("--config-resource"@, resources, major, platform);
    let a4 = valued("--baseline"@, target.baseline);
    let a5 = cli_listed("--plugins"@, plugins, major, platform);
    let a6 = repeated("--report"@, reports);
    let a7 = listed("--classpath"@, classpath, path_list(classpath, platform));
    let a8 = valued("--jvm-target"@, target.jvm_target);
    let a9: Seq<Seq<char>> = match major {
        CliMajor::V1 => Seq::empty(),
        CliMajor::V2 => seq![
            "--analysis-mode"@,
            if target.classpath@.len() == 0 {
                "light"@
            } else {
                "full"@
            },
        ],
    };
    let a10 = cli_listed("--input"@, fspath::below(root, files), major, platform);
    let all = arguments(major, platform, target, root, files);
    assert(all == a0 + a1 + a2 + a3 + a4 + a5 + a6 + a7 + a8 + a9 + a10);
    lemma_parts_in_a_row(a0, a1, a2, a3, a4, a5, a6, a7, a8, a9, a10);
    assert(fspath::below(root, files) =~= files.map_values(
        |f: Seq<char>| fspath::joined(root, f),
    ));
    lemma_repeated_len("--report"@, reports);
    let n = target.args@.len() as int;
    let front = all.take(a0.len() as int);
    assert(front == a0);
    assert(all[n] == front[n] && all[n + 1] == front[n + 1]);
    assert(a0[n] == "--base-path"@ && a0[n + 1] == root);
    assert(all.take(n) =~= chars::views(target.args@)) by {
        assert(front.take(n) =~= all.take(n));
        assert(a0.take(n) =~= chars::views(target.args@));
    }
}

/// What stands before and behind each of several parts in a row.
proof fn lemma_parts_in_a_row(
    a0: Seq<Seq<char>>,
    a1: Seq<Seq<char>>,
    a2: Seq<Seq<char>>,
    a3: Seq<Seq<char>>,
    a4: Seq<Seq<char>>,
    a5: Seq<Seq<char>>,
    a6: Seq<Seq<char>>,
    a7: Seq<Seq<char>>,
    a8: Seq<Seq<char>>,
    a9: Seq<Seq<char>>,
    a10: Seq<Seq<char>>,
)
    ensures
        ({
            let all = a0 + a1 + a2 + a3 + a4 + a5 + a6 + a7 + a8 + a9 + a10;
            let h1 = a0 + a1;
            let h2 = h1 + a2;
            let h3 = h2 + a3;
            let h4 = h3 + a4;
            let h5 = h4 + a5;
            let h6 = h5 + a6;
            let h7 = h6 + a7;
            let t9 = a9 + a10;
            let t8 = a8 + t9;
            let t7 = a7 + t8;
            let t6 = a6 + t7;
            let t5 = a5 + t6;
            let t4 = a4 + t5;
            let t3 = a3 + t4;
            &&& all.take(a0.len() as int) == a0
            &&& h1 + a2 + t3 == all
            &&& h2 + a3 + t4 == all
            &&& h3 + a4 + t5 == all
            &&& h4 + a5 + t6 == all
            &&& h5 + a6 + t7 == all
            &&& h6 + a7 + t8 == all
            &&& h7 + a8 + t9 == all
            &&& all.len() == a0.len() + a1.len() + a2.len() + a3.len() + a4.len() + a5.len()
                + a6.len() + a7.len() + a8.len() + a9.len() + a10.len()
            &&& a1.len() > 0 ==> all[a0.len() as int] == a1[0]
            &&& a10.len() == 2 ==> all[all.len() - 2] == a10[0] && all[all.len() - 1] == a10[1]
        }),
{
    let h1 = a0 + a1;
    let h2 = h1 + a2;
    let h3 = h2 + a3;
    let h4 = h3 + a4;
    let h5 = h4 + a5;
    let h6 = h5 + a6;
    let h7 = h6 + a7;
    let h8 = h7 + a8;
    let t9 = a9 + a10;
    let t8 = a8 + t9;
    let t7 = a7 + t8;
    let t6 = a6 + t7;
    let t5 = a5 + t6;
    let t4 = a4 + t5;
    let t3 = a3 + t4;
    let all = h8 + a9 + a10;
    assert(h8 + t9 =~= all);
    assert(h7 + t8 =~= h8 + t9);
    assert(h6 + t7 =~= h7 + t8);
    assert(h5 + t6 =~= h6 + t7);
    assert(h4 + t5 =~= h5 + t6);
    assert(h3 + t4 =~= h4 + t5);
    assert(h2 + t3 =~= h3 + t4);
    assert(all == h2 + t3);
    assert(all.take(a0.len() as int) =~= a0) by {
        assert((h2 + t3).take(a0.len() as int) =~= a0);
    }
    if a1.len() > 0 {
        assert((h2 + t3)[a0.len() as int] == a1[0]);
    }
}

proof fn lemma_repeated_len(flag: Seq<char>, items: Seq<Seq<char>>)
    ensures
        repeated(flag, items).len() == 2 * items.len(),
    decreases items.len(),
{
    if items.len() > 0 {
        lemma_repeated_len(flag, items.drop_last());
    }
}

/// An option that is repeated stands before each of its values, in order.
proof fn lemma_repeated(flag: Seq<char>, items: Seq<Seq<char>>, k: int)
    requires
        0 <= k < items.len(),
    ensures
        repeated(flag, items).len() == 2 * items.len(),
        repeated(flag, items)[2 * k] == flag,
        repeated(flag, items)[2 * k + 1] == items[k],
    decreases items.len(),
{
    let t = items.drop_last();
    lemma_repeated_len(flag, t);
    if k < t.len() {
        lemma_repeated(flag, t, k);
        assert(t[k] == items[k]);
    }
}

/// A local detekt is taken as it is, as a jar where its name ends in `.jar`; one
/// of a version comes from the cache, of the generation of the version, and no
/// version of neither generation is taken.
pub proof fn detekt_by_settings<D: Downloader>(
    d: Detekt,
    root: Seq<char>,
    cache: Cache,
    downloader: &D,
    on_disk: Seq<Seq<char>>,
    r: Result<(Invoker, Option<CliMajor>), DetektError>,
)
    requires
        is_detekt_invoker(d, root, cache, downloader, on_disk, r),
    ensures
        d.path matches Some(p) ==> {
            &&& r is Ok <==> fspath::holds_path(on_disk, fspath::joined(root, p@))
            &&& r matches Ok((Invoker::Jar(j), m)) ==> m is None && j@ == fspath::joined(root, p@)
                && fspath::suffix(j@) == Some("jar"@)
            &&& r matches Ok((Invoker::Executable(j), m)) ==> m is None && j@ == fspath::joined(
                root,
                p@,
            ) && fspath::suffix(j@) != Some("jar"@)
        },
        d.path is None && (d.version matches Some(config::VersionSpec::Literal(v)) && major_of(v@)
            is None) ==> (r matches Err(DetektError::Unsupported { version }) && version@
            == (d.version->0)->Literal_0@),
        d.path is None ==> (r matches Ok((i, m)) ==> m is Some && (
        d.version matches Some(config::VersionSpec::Literal(v)) && m == major_of(v@) && (
        i matches Invoker::Jar(j) && j@ == cache.detekt_file(v@)))),
{
}

} // verus!
