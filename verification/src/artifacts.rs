//! Getting hold of the formatters: from the cache, the network or the
//! repository.
//!
//! `on_disk` lists the files that are known to exist, and `host` is the native
//! build of google-java-format for this platform.

use crate::cache;
use crate::cache::Cache;
use crate::cache::DownloadError;
use crate::cache::Downloader;
use crate::cache::GjfFlavor;
use crate::cache::NativeAsset;
use crate::cache::NoNativeBuild;
use crate::chars;
use crate::config;
use crate::config::Config;
use crate::config::Detekt;
use crate::config::Gjf;
use crate::config::Ktfmt;
use crate::config::NativeMode;
use crate::config::ToolSource;
use crate::config::VersionSpec;
use crate::formatters::Invoker;
use crate::fspath;
use crate::text;
use vstd::prelude::*;

verus! {

/// Why there is no formatter.
#[derive(Debug, PartialEq, Eq)]
pub enum ArtifactError {
    Download(DownloadError),
    NoNative(NoNativeBuild),
    /// The jar that the configuration names does not exist.
    JarMissing { path: String },
    /// The binary that the configuration names does not exist.
    GjfMissing { path: String },
    /// A path without a file name.
    NoFileName { path: String },
}

impl ArtifactError {
    /// What the error says.
    pub open spec fn text(self) -> Seq<char> {
        match self {
            ArtifactError::Download(e) => e.message@,
            ArtifactError::NoNative(e) => "native gjf is not available for version "@ + e.version@
                + " on this platform"@,
            ArtifactError::JarMissing { path } => "jar not found: "@ + path@,
            ArtifactError::GjfMissing { path } => "gjf binary not found: "@ + path@,
            ArtifactError::NoFileName { path } => "cache artifact has no file name: "@ + path@,
        }
    }

    /// What the error says.
    pub fn message(&self) -> (r: String)
        ensures
            r@ == self.text(),
    {
        match self {
            ArtifactError::Download(e) => e.message.clone(),
            ArtifactError::NoNative(e) => e.message(),
            ArtifactError::JarMissing { path } => text::cat2("jar not found: ", path),
            ArtifactError::GjfMissing { path } => text::cat2("gjf binary not found: ", path),
            ArtifactError::NoFileName { path } => text::cat2(
                "cache artifact has no file name: ",
                path,
            ),
        }
    }
}

/// The formatter that a fetch gives.
pub open spec fn is_fetched_as(
    f: Result<String, DownloadError>,
    native: bool,
    r: Result<Invoker, ArtifactError>,
) -> bool {
    match f {
        Ok(p) => r == Ok::<Invoker, ArtifactError>(
            if native {
                Invoker::Native(p)
            } else {
                Invoker::Jar(p)
            },
        ),
        Err(e) => r == Err::<Invoker, _>(ArtifactError::Download(e)),
    }
}

/// ktfmt of a version, from the cache or the network.
pub open spec fn is_cached_ktfmt<D: Downloader>(
    version: Seq<char>,
    cache: Cache,
    downloader: &D,
    on_disk: Seq<Seq<char>>,
    r: Result<Invoker, ArtifactError>,
) -> bool {
    exists|f: Result<String, DownloadError>| #[trigger]
        cache::fetched(
            downloader,
            chars::replace(cache::KTFMT_URL@, "{v}"@, version),
            cache.ktfmt_file(version),
            fspath::holds_path(on_disk, cache.ktfmt_file(version)),
            f,
        ) && is_fetched_as(f, false, r)
}

/// google-java-format of a version, from the cache or the network: the native
/// build where it is wanted and there is one, and else the jar.
pub open spec fn is_cached_gjf<D: Downloader>(
    version: Seq<char>,
    native: NativeMode,
    cache: Cache,
    downloader: &D,
    host: Option<NativeAsset>,
    on_disk: Seq<Seq<char>>,
    r: Result<Invoker, ArtifactError>,
) -> bool {
    if native != NativeMode::Never && cache::has_native(version, host) {
        let asset = host->0;
        exists|f: Result<String, DownloadError>| #[trigger]
            cache::fetched(
                downloader,
                chars::replace(
                    chars::replace(
                        chars::replace(cache::GJF_NATIVE_URL@, "{v}"@, version),
                        "{asset}"@,
                        asset.asset@,
                    ),
                    "{ext}"@,
                    asset.exe_suffix@,
                ),
                cache.gjf_native_file(version, asset),
                fspath::holds_path(on_disk, cache.gjf_native_file(version, asset)),
                f,
            ) && is_fetched_as(f, true, r)
    } else if native == NativeMode::Always {
        r matches Err(ArtifactError::NoNative(e)) && e.version@ == version
    } else {
        exists|f: Result<String, DownloadError>| #[trigger]
            cache::fetched(
                downloader,
                chars::replace(cache::GJF_URL@, "{v}"@, version),
                cache.gjf_jar_file(version),
                fspath::holds_path(on_disk, cache.gjf_jar_file(version)),
                f,
            ) && is_fetched_as(f, false, r)
    }
}

/// Makes sure that ktfmt of a version is there.
fn ensure_ktfmt_artifact<D: Downloader>(
    version: &str,
    cache: &Cache,
    downloader: &D,
    on_disk: &Vec<String>,
) -> (r: Result<Invoker, ArtifactError>)
    ensures
        is_cached_ktfmt(version@, *cache, downloader, chars::views(on_disk@), r),
{
    let present = fspath::holds(on_disk, &cache.ktfmt_path(version));
    match cache.ensure_ktfmt(version, present, downloader) {
        Ok(p) => Ok(Invoker::Jar(p)),
        Err(e) => Err(ArtifactError::Download(e)),
    }
}

/// Makes sure that google-java-format of a version is there.
pub fn ensure_gjf_artifact<D: Downloader>(
    version: &str,
    native: NativeMode,
    cache: &Cache,
    downloader: &D,
    host: Option<NativeAsset>,
    on_disk: &Vec<String>,
) -> (r: Result<Invoker, ArtifactError>)
    ensures
        is_cached_gjf(
            version@,
            native,
            *cache,
            downloader,
            host,
            chars::views(on_disk@),
            r,
        ),
{
    let prefer = match native {
        NativeMode::Never => false,
        _ => true,
    };
    let require = match native {
        NativeMode::Always => true,
        _ => false,
    };
    match cache::resolve_gjf_flavor(version, prefer, require, host) {
        Err(e) => Err(ArtifactError::NoNative(e)),
        Ok(GjfFlavor::Jar) => {
            let present = fspath::holds(on_disk, &cache.gjf_jar_path(version));
            match cache.ensure_gjf_jar(version, present, downloader) {
                Ok(p) => Ok(Invoker::Jar(p)),
                Err(e) => Err(ArtifactError::Download(e)),
            }
        },
        Ok(GjfFlavor::Native(asset)) => {
            let present = fspath::holds(on_disk, &cache.gjf_native_path(version, &asset));
            match cache.ensure_gjf_native(version, &asset, present, downloader) {
                Ok(p) => Ok(Invoker::Native(p)),
                Err(e) => Err(ArtifactError::Download(e)),
            }
        },
    }
}

/// The jar of ktfmt that the settings give.
pub open spec fn is_ktfmt_invoker<D: Downloader>(
    kt: Ktfmt,
    root: Seq<char>,
    cache: Cache,
    downloader: &D,
    on_disk: Seq<Seq<char>>,
    r: Result<Invoker, ArtifactError>,
) -> bool {
    match kt.path {
        Some(p) => {
            let path = fspath::joined(root, p@);
            if fspath::holds_path(on_disk, path) {
                r matches Ok(Invoker::Jar(j)) && j@ == path
            } else {
                r matches Err(ArtifactError::JarMissing { path: q }) && q@ == path
            }
        },
        None => kt.version matches Some(VersionSpec::Literal(v)) && is_cached_ktfmt(
            v@,
            cache,
            downloader,
            on_disk,
            r,
        ),
    }
}

/// Gets the jar of ktfmt.
pub fn resolve_ktfmt_invoker<D: Downloader>(
    kt: &Ktfmt,
    repo_root: &str,
    cache: &Cache,
    downloader: &D,
    on_disk: &Vec<String>,
) -> (r: Result<Invoker, ArtifactError>)
    requires
        config::locatable(kt.version, kt.path),
    ensures
        is_ktfmt_invoker(*kt, repo_root@, *cache, downloader, chars::views(on_disk@), r),
{
    match kt.source(repo_root) {
        ToolSource::Cached(v) => ensure_ktfmt_artifact(&v, cache, downloader, on_disk),
        ToolSource::Local(path) => {
            if !fspath::holds(on_disk, &path) {
                return Err(ArtifactError::JarMissing { path });
            }
            Ok(Invoker::Jar(path))
        },
    }
}

/// The google-java-format that the settings give. A local one runs on the JVM
/// where its name ends in `.jar`.
pub open spec fn is_gjf_invoker<D: Downloader>(
    g: Gjf,
    root: Seq<char>,
    cache: Cache,
    downloader: &D,
    host: Option<NativeAsset>,
    on_disk: Seq<Seq<char>>,
    r: Result<Invoker, ArtifactError>,
) -> bool {
    match g.path {
        Some(p) => {
            let path = fspath::joined(root, p@);
            if !fspath::holds_path(on_disk, path) {
                r matches Err(ArtifactError::GjfMissing { path: q }) && q@ == path
            } else if fspath::suffix(path) == Some("jar"@) {
                r matches Ok(Invoker::Jar(j)) && j@ == path
            } else {
                r matches Ok(Invoker::Native(j)) && j@ == path
            }
        },
        None => g.version matches Some(VersionSpec::Literal(v)) && is_cached_gjf(
            v@,
            g.native,
            cache,
            downloader,
            host,
            on_disk,
            r,
        ),
    }
}

/// Gets google-java-format.
pub fn resolve_gjf_invoker<D: Downloader>(
    g: &Gjf,
    repo_root: &str,
    cache: &Cache,
    downloader: &D,
    host: Option<NativeAsset>,
    on_disk: &Vec<String>,
) -> (r: Result<Invoker, ArtifactError>)
    requires
        config::locatable(g.version, g.path),
    ensures
        is_gjf_invoker(*g, repo_root@, *cache, downloader, host, chars::views(on_disk@), r),
{
    match g.source(repo_root) {
        ToolSource::Cached(v) => ensure_gjf_artifact(
            &v,
            g.native,
            cache,
            downloader,
            host,
            on_disk,
        ),
        ToolSource::Local(path) => {
            if !fspath::holds(on_disk, &path) {
                return Err(ArtifactError::GjfMissing { path });
            }
            let is_jar = match fspath::extension(&path) {
                Some(e) => text::same(&e, "jar"),
                None => false,
            };
            if is_jar {
                Ok(Invoker::Jar(path))
            } else {
                Ok(Invoker::Native(path))
            }
        },
    }
}

/// The tools of a configuration can be located.
pub open spec fn tools_locatable(c: Config) -> bool {
    &&& c.ktfmt matches Some(k) ==> config::locatable(k.version, k.path)
    &&& c.gjf matches Some(g) ==> config::locatable(g.version, g.path)
}

/// The version that the cache holds for a tool.
pub open spec fn cached_version(
    version: Option<VersionSpec>,
    path: Option<String>,
) -> Option<Seq<char>> {
    match (path, version) {
        (None, Some(VersionSpec::Literal(v))) => Some(v@),
        _ => None,
    }
}

/// The version of ktfmt that the cache holds for a configuration.
pub open spec fn cached_ktfmt_version(c: Config) -> Option<Seq<char>> {
    match c.ktfmt {
        Some(k) => cached_version(k.version, k.path),
        None => None,
    }
}

/// The version of google-java-format that the cache holds for a configuration.
pub open spec fn cached_gjf_version(c: Config) -> Option<Seq<char>> {
    match c.gjf {
        Some(g) => cached_version(g.version, g.path),
        None => None,
    }
}

/// The version of detekt that the cache holds for a configuration.
pub open spec fn cached_detekt_version(c: Config) -> Option<Seq<char>> {
    match c.detekt {
        Some(d) => cached_version(d.version, d.path),
        None => None,
    }
}

/// The files of the cache that a configuration uses. For google-java-format
/// that is the jar and, where it is wanted and published, the native build too:
/// which of them is used shows only when it is.
pub open spec fn kept_paths(c: Config, cache: Cache, host: Option<NativeAsset>) -> Seq<Seq<char>> {
    (match cached_ktfmt_version(c) {
        Some(v) => seq![cache.ktfmt_file(v)],
        None => Seq::<Seq<char>>::empty(),
    }) + (match cached_gjf_version(c) {
        Some(v) => if c.gjf->0.native != NativeMode::Never && cache::has_native(v, host) {
            seq![cache.gjf_jar_file(v), cache.gjf_native_file(v, host->0)]
        } else {
            seq![cache.gjf_jar_file(v)]
        },
        None => Seq::<Seq<char>>::empty(),
    }) + (match cached_detekt_version(c) {
        Some(v) => seq![cache.detekt_file(v)],
        None => Seq::<Seq<char>>::empty(),
    })
}

/// The files of the cache that a configuration uses.
pub fn keep_paths_for_config(
    config: &Config,
    repo_root: &str,
    cache: &Cache,
    host: Option<NativeAsset>,
) -> (r: Vec<String>)
    requires
        tools_locatable(*config),
    ensures
        chars::views(r@) == kept_paths(*config, *cache, host),
{
    let mut keep: Vec<String> = Vec::new();
    if let Some(kt) = &config.ktfmt {
        if let ToolSource::Cached(v) = kt.source(repo_root) {
            keep.push(cache.ktfmt_path(&v));
        }
    }
    if let Some(g) = &config.gjf {
        if let ToolSource::Cached(v) = g.source(repo_root) {
            keep.push(cache.gjf_jar_path(&v));
            match g.native {
                NativeMode::Never => {},
                _ => {
                    if let Some(asset) = host {
                        if cache::native_supported_for_version(&v, &asset) {
                            keep.push(cache.gjf_native_path(&v, &asset));
                        }
                    }
                },
            }
        }
    }
    if let Some(d) = &config.detekt {
        if let (None, Some(VersionSpec::Literal(v))) = (&d.path, &d.version) {
            keep.push(cache.detekt_path(v));
        }
    }
    assert(chars::views(keep@) =~= kept_paths(*config, *cache, host));
    keep
}

/// The files that a run can need besides sources: those that the cache holds
/// for the configuration, and those that it names itself.
pub fn artifact_paths(
    config: &Config,
    repo_root: &str,
    cache: &Cache,
    host: Option<NativeAsset>,
) -> (r: Vec<String>)
    requires
        tools_locatable(*config),
    ensures
        chars::views(r@) == kept_paths(*config, *cache, host) + (match config.ktfmt {
            Some(Ktfmt { path: Some(p), .. }) => seq![fspath::joined(repo_root@, p@)],
            _ => Seq::<Seq<char>>::empty(),
        }) + (match config.gjf {
            Some(Gjf { path: Some(p), .. }) => seq![fspath::joined(repo_root@, p@)],
            _ => Seq::<Seq<char>>::empty(),
        }) + (match config.detekt {
            Some(Detekt { path: Some(p), .. }) => seq![fspath::joined(repo_root@, p@)],
            _ => Seq::<Seq<char>>::empty(),
        }),
{
    let mut r = keep_paths_for_config(config, repo_root, cache, host);
    let ghost kept = chars::views(r@);
    if let Some(kt) = &config.ktfmt {
        if let Some(p) = &kt.path {
            r.push(fspath::join(repo_root, p));
        }
    }
    if let Some(g) = &config.gjf {
        if let Some(p) = &g.path {
            r.push(fspath::join(repo_root, p));
        }
    }
    if let Some(d) = &config.detekt {
        if let Some(p) = &d.path {
            r.push(fspath::join(repo_root, p));
        }
    }
    assert(chars::views(r@) =~= kept + (match config.ktfmt {
        Some(Ktfmt { path: Some(p), .. }) => seq![fspath::joined(repo_root@, p@)],
        _ => Seq::<Seq<char>>::empty(),
    }) + (match config.gjf {
        Some(Gjf { path: Some(p), .. }) => seq![fspath::joined(repo_root@, p@)],
        _ => Seq::<Seq<char>>::empty(),
    }) + (match config.detekt {
        Some(Detekt { path: Some(p), .. }) => seq![fspath::joined(repo_root@, p@)],
        _ => Seq::<Seq<char>>::empty(),
    }));
    r
}

/// What was fetched, as one of the formatters that need not be there.
pub open spec fn obtained(i: Result<Invoker, ArtifactError>) -> Result<
    Option<Invoker>,
    ArtifactError,
> {
    match i {
        Ok(x) => Ok(Some(x)),
        Err(e) => Err(e),
    }
}

/// Fetching a version of ktfmt came to this.
pub open spec fn is_obtained_ktfmt<D: Downloader>(
    version: Seq<char>,
    cache: Cache,
    downloader: &D,
    on_disk: Seq<Seq<char>>,
    r: Result<Option<Invoker>, ArtifactError>,
) -> bool {
    exists|i: Result<Invoker, ArtifactError>| #[trigger]
        is_cached_ktfmt(version, cache, downloader, on_disk, i) && r == obtained(i)
}

/// Fetching a version of google-java-format came to this.
pub open spec fn is_obtained_gjf<D: Downloader>(
    version: Seq<char>,
    native: NativeMode,
    cache: Cache,
    downloader: &D,
    host: Option<NativeAsset>,
    on_disk: Seq<Seq<char>>,
    r: Result<Option<Invoker>, ArtifactError>,
) -> bool {
    exists|i: Result<Invoker, ArtifactError>| #[trigger]
        is_cached_gjf(version, native, cache, downloader, host, on_disk, i) && r == obtained(i)
}

/// Fetching ktfmt came to this; nothing is fetched where the configuration has
/// no version of it.
pub open spec fn is_ktfmt_update<D: Downloader>(
    c: Config,
    cache: Cache,
    downloader: &D,
    on_disk: Seq<Seq<char>>,
    r: Result<Option<Invoker>, ArtifactError>,
) -> bool {
    match cached_ktfmt_version(c) {
        None => r == Ok::<Option<Invoker>, ArtifactError>(None),
        Some(v) => is_obtained_ktfmt(v, cache, downloader, on_disk, r),
    }
}

/// Fetching google-java-format came to this.
pub open spec fn is_gjf_update<D: Downloader>(
    c: Config,
    cache: Cache,
    downloader: &D,
    host: Option<NativeAsset>,
    on_disk: Seq<Seq<char>>,
    r: Result<Option<Invoker>, ArtifactError>,
) -> bool {
    match cached_gjf_version(c) {
        None => r == Ok::<Option<Invoker>, ArtifactError>(None),
        Some(v) => is_obtained_gjf(v, c.gjf->0.native, cache, downloader, host, on_disk, r),
    }
}

fn update_ktfmt<D: Downloader>(
    config: &Config,
    repo_root: &str,
    cache: &Cache,
    downloader: &D,
    on_disk: &Vec<String>,
) -> (r: Result<Option<Invoker>, ArtifactError>)
    requires
        tools_locatable(*config),
    ensures
        is_ktfmt_update(*config, *cache, downloader, chars::views(on_disk@), r),
{
    if let Some(kt) = &config.ktfmt {
        if let ToolSource::Cached(v) = kt.source(repo_root) {
            let i = ensure_ktfmt_artifact(&v, cache, downloader, on_disk);
            let ghost got = i;
            let r = match i {
                Ok(x) => Ok(Some(x)),
                Err(e) => Err(e),
            };
            assert(r == obtained(got));
            return r;
        }
    }
    Ok(None)
}

fn update_gjf<D: Downloader>(
    config: &Config,
    repo_root: &str,
    cache: &Cache,
    downloader: &D,
    host: Option<NativeAsset>,
    on_disk: &Vec<String>,
) -> (r: Result<Option<Invoker>, ArtifactError>)
    requires
        tools_locatable(*config),
    ensures
        is_gjf_update(*config, *cache, downloader, host, chars::views(on_disk@), r),
{
    if let Some(g) = &config.gjf {
        if let ToolSource::Cached(v) = g.source(repo_root) {
            let i = ensure_gjf_artifact(&v, g.native, cache, downloader, host, on_disk);
            let ghost got = i;
            let r = match i {
                Ok(x) => Ok(Some(x)),
                Err(e) => Err(e),
            };
            assert(r == obtained(got));
            return r;
        }
    }
    Ok(None)
}

/// Fetches the formatters of a configuration, ktfmt first. Those that it names
/// by a path are left alone. What it gives are the formatters that were fetched
/// or already there.
pub fn run_update<D: Downloader>(
    config: &Config,
    repo_root: &str,
    cache: &Cache,
    downloader: &D,
    host: Option<NativeAsset>,
    on_disk: &Vec<String>,
) -> (r: Result<(Option<Invoker>, Option<Invoker>), ArtifactError>)
    requires
        tools_locatable(*config),
    ensures
        exists|kt: Result<Option<Invoker>, ArtifactError>| #[trigger]
            is_ktfmt_update(*config, *cache, downloader, chars::views(on_disk@), kt) && match kt {
                Err(e) => r == Err::<(Option<Invoker>, Option<Invoker>), _>(e),
                Ok(k) => exists|gjf: Result<Option<Invoker>, ArtifactError>| #[trigger]
                    is_gjf_update(
                        *config,
                        *cache,
                        downloader,
                        host,
                        chars::views(on_disk@),
                        gjf,
                    ) && match gjf {
                        Err(e) => r == Err::<(Option<Invoker>, Option<Invoker>), _>(e),
                        Ok(g) => r == Ok::<_, ArtifactError>((k, g)),
                    },
            },
{
    let kt = match update_ktfmt(config, repo_root, cache, downloader, on_disk) {
        Ok(k) => k,
        Err(e) => {
            return Err(e);
        },
    };
    match update_gjf(config, repo_root, cache, downloader, host, on_disk) {
        Ok(g) => Ok((kt, g)),
        Err(e) => Err(e),
    }
}

/// A formatter to be copied into the repository.
#[derive(Debug, PartialEq, Eq)]
pub struct VendorEntry {
    pub tool: &'static str,
    pub version: String,
    /// What is copied.
    pub source: String,
    /// Where it goes.
    pub dest: String,
    /// What the configuration has to name then.
    pub config_value: String,
}

/// The formatters to be copied, and the tools that are already in the repository.
#[derive(Debug, PartialEq, Eq)]
pub struct VendorOutcome {
    pub entries: Vec<VendorEntry>,
    pub skipped: Vec<&'static str>,
}

/// The entry that copies `source` into a directory.
pub open spec fn is_vendor_entry(
    e: VendorEntry,
    tool: Seq<char>,
    version: Seq<char>,
    source: Seq<char>,
    root: Seq<char>,
    dir: Seq<char>,
) -> bool {
    fspath::base_name(source) matches Some(name) && e.tool@ == tool && e.version@ == version
        && e.source@ == source && e.dest@ == fspath::joined(fspath::joined(root, dir), name)
        && e.config_value@ == (if fspath::rooted(dir) {
        fspath::joined(fspath::joined(root, dir), name)
    } else {
        fspath::joined(dir, name)
    })
}

fn copy_into(tool: &'static str, version: &str, source: &str, repo_root: &str, target_dir: &str) -> (r:
    Result<VendorEntry, ArtifactError>)
    ensures
        match r {
            Ok(e) => is_vendor_entry(
                e,
                tool@,
                version@,
                source@,
                repo_root@,
                target_dir@,
            ),
            Err(e) => fspath::base_name(source@) is None
                && (e matches ArtifactError::NoFileName { path } && path@ == source@),
        },
{
    let name = match fspath::file_name(source) {
        Some(n) => n,
        None => {
            return Err(ArtifactError::NoFileName { path: source.to_owned() });
        },
    };
    let dest = fspath::join(&fspath::join(repo_root, target_dir), &name);
    let config_value = if fspath::is_absolute(target_dir) {
        dest.clone()
    } else {
        fspath::join(target_dir, &name)
    };
    Ok(
        VendorEntry {
            tool,
            version: version.to_owned(),
            source: source.to_owned(),
            dest,
            config_value,
        },
    )
}

/// The file of a formatter.
pub open spec fn invoker_path(i: Invoker) -> Seq<char> {
    match i {
        Invoker::Jar(p) => p@,
        Invoker::Native(p) => p@,
    }
}

/// Vendoring a tool came to this: an entry for what was fetched, or a note that
/// the tool is already in the repository.
pub open spec fn is_vendored(
    version: Option<Seq<char>>,
    configured: bool,
    fetched: Option<Invoker>,
    tool: Seq<char>,
    root: Seq<char>,
    dir: Seq<char>,
    entries: Seq<VendorEntry>,
    skipped: Seq<&'static str>,
) -> bool {
    match version {
        Some(v) => fetched matches Some(i) && entries.len() == 1 && is_vendor_entry(
            entries[0],
            tool,
            v,
            invoker_path(i),
            root,
            dir,
        ) && skipped.len() == 0,
        None => entries.len() == 0 && if configured {
            skipped.len() == 1 && skipped[0]@ == tool
        } else {
            skipped.len() == 0
        },
    }
}

fn vendor_tool(
    tool: &'static str,
    version: &Option<VersionSpec>,
    path: &Option<String>,
    fetched: Option<Invoker>,
    repo_root: &str,
    target_dir: &str,
    out: &mut VendorOutcome,
) -> (r: Result<(), ArtifactError>)
    requires
        config::locatable(*version, *path),
        *path is None ==> fetched is Some,
    ensures
        match r {
            Ok(_) => exists|e: Seq<VendorEntry>, s: Seq<&'static str>| #[trigger]
                is_vendored(
                    cached_version(*version, *path),
                    true,
                    fetched,
                    tool@,
                    repo_root@,
                    target_dir@,
                    e,
                    s,
                ) && final(out).entries@ == old(out).entries@ + e && final(out).skipped@ == old(
                    out,
                ).skipped@ + s,
            Err(e) => *path is None && fspath::base_name(invoker_path(fetched->0)) is None
                && (e matches ArtifactError::NoFileName { path: p } && p@ == invoker_path(
                fetched->0,
            )),
        },
{
    match path {
        Some(_) => {
            out.skipped.push(tool);
            proof {
                let e = Seq::<VendorEntry>::empty();
                let s = seq![tool];
                assert(is_vendored(
                    None,
                    true,
                    fetched,
                    tool@,
                    repo_root@,
                    target_dir@,
                    e,
                    s,
                ));
                assert(out.entries@ =~= old(out).entries@ + e);
                assert(out.skipped@ =~= old(out).skipped@ + s);
            }
            Ok(())
        },
        None => {
            let v = match version {
                Some(v) => v.as_literal(),
                None => "",
            };
            let source = match fetched {
                Some(Invoker::Jar(p)) => p,
                Some(Invoker::Native(p)) => p,
                None => String::new(),
            };
            match copy_into(tool, v, &source, repo_root, target_dir) {
                Ok(entry) => {
                    let ghost g = entry;
                    out.entries.push(entry);
                    proof {
                        let e = seq![g];
                        let s = Seq::<&'static str>::empty();
                        assert(is_vendored(
                            cached_version(*version, *path),
                            true,
                            fetched,
                            tool@,
                            repo_root@,
                            target_dir@,
                            e,
                            s,
                        ));
                        assert(out.entries@ =~= old(out).entries@ + e);
                        assert(out.skipped@ =~= old(out).skipped@ + s);
                    }
                    Ok(())
                },
                Err(e) => Err(e),
            }
        },
    }
}

/// What is to be copied into the repository, given what was fetched.
pub open spec fn is_vendor_outcome(
    c: Config,
    root: Seq<char>,
    dir: Seq<char>,
    kt: Option<Invoker>,
    gjf: Option<Invoker>,
    out: VendorOutcome,
) -> bool {
    exists|ke: Seq<VendorEntry>, ks: Seq<&'static str>, ge: Seq<VendorEntry>, gs: Seq<&'static str>|

        #[trigger] is_vendored(
            cached_ktfmt_version(c),
            c.ktfmt is Some,
            kt,
            "ktfmt"@,
            root,
            dir,
            ke,
            ks,
        ) && #[trigger] is_vendored(
            cached_gjf_version(c),
            c.gjf is Some,
            gjf,
            "gjf"@,
            root,
            dir,
            ge,
            gs,
        ) && out.entries@ == ke + ge && out.skipped@ == ks + gs
}

/// A formatter that was fetched for a version has no file name.
pub open spec fn nameless(version: Option<Seq<char>>, fetched: Option<Invoker>) -> bool {
    version is Some && fspath::base_name(invoker_path(fetched->0)) is None
}

/// Vendoring came to this, given what was fetched: the first of the formatters
/// that has no file name is an error.
pub open spec fn is_vendor_result(
    c: Config,
    root: Seq<char>,
    dir: Seq<char>,
    kt: Option<Invoker>,
    gjf: Option<Invoker>,
    r: Result<VendorOutcome, ArtifactError>,
) -> bool {
    if nameless(cached_ktfmt_version(c), kt) {
        r matches Err(ArtifactError::NoFileName { path }) && path@ == invoker_path(kt->0)
    } else if nameless(cached_gjf_version(c), gjf) {
        r matches Err(ArtifactError::NoFileName { path }) && path@ == invoker_path(gjf->0)
    } else {
        r matches Ok(out) && is_vendor_outcome(c, root, dir, kt, gjf, out)
    }
}

/// Lists what is to be copied into the directory of the repository, given what
/// was fetched for the configuration (see [`run_update`]).
pub fn plan_vendor(
    config: &Config,
    repo_root: &str,
    target_dir: &str,
    kt: Option<Invoker>,
    gjf: Option<Invoker>,
) -> (r: Result<VendorOutcome, ArtifactError>)
    requires
        tools_locatable(*config),
        cached_ktfmt_version(*config) is Some ==> kt is Some,
        cached_gjf_version(*config) is Some ==> gjf is Some,
    ensures
        is_vendor_result(*config, repo_root@, target_dir@, kt, gjf, r),
{
    let mut out = VendorOutcome { entries: Vec::new(), skipped: Vec::new() };
    let ghost mut ke: Seq<VendorEntry> = Seq::empty();
    let ghost mut ks: Seq<&'static str> = Seq::empty();
    if let Some(k) = &config.ktfmt {
        match vendor_tool("ktfmt", &k.version, &k.path, kt, repo_root, target_dir, &mut out) {
            Ok(_) => {},
            Err(e) => {
                return Err(e);
            },
        }
    }
    proof {
        ke = out.entries@;
        ks = out.skipped@;
        if config.ktfmt is Some {
            let (e, s) = choose|e: Seq<VendorEntry>, s: Seq<&'static str>| #[trigger]
                is_vendored(
                    cached_ktfmt_version(*config),
                    true,
                    kt,
                    "ktfmt"@,
                    repo_root@,
                    target_dir@,
                    e,
                    s,
                ) && out.entries@ == Seq::<VendorEntry>::empty() + e && out.skipped@ == Seq::<
                    &'static str,
                >::empty() + s;
            assert(Seq::<VendorEntry>::empty() + e =~= e);
            assert(Seq::<&'static str>::empty() + s =~= s);
        }
        assert(is_vendored(
            cached_ktfmt_version(*config),
            config.ktfmt is Some,
            kt,
            "ktfmt"@,
            repo_root@,
            target_dir@,
            ke,
            ks,
        ));
    }
    if let Some(g) = &config.gjf {
        match vendor_tool("gjf", &g.version, &g.path, gjf, repo_root, target_dir, &mut out) {
            Ok(_) => {},
            Err(e) => {
                return Err(e);
            },
        }
    } else {
        proof {
            let e = Seq::<VendorEntry>::empty();
            let s = Seq::<&'static str>::empty();
            assert(is_vendored(
                cached_gjf_version(*config),
                false,
                gjf,
                "gjf"@,
                repo_root@,
                target_dir@,
                e,
                s,
            ));
            assert(out.entries@ =~= ke + e);
            assert(out.skipped@ =~= ks + s);
        }
    }
    Ok(out)
}

/// Fetches the formatters of a configuration and lists what is to be copied into
/// the directory of the repository.
pub fn run_vendor<D: Downloader>(
    config: &Config,
    repo_root: &str,
    cache: &Cache,
    downloader: &D,
    host: Option<NativeAsset>,
    on_disk: &Vec<String>,
    target_dir: &str,
) -> (r: Result<VendorOutcome, ArtifactError>)
    requires
        tools_locatable(*config),
    ensures
        exists|kt: Result<Option<Invoker>, ArtifactError>| #[trigger]
            is_ktfmt_update(*config, *cache, downloader, chars::views(on_disk@), kt) && match kt {
                Err(e) => r == Err::<VendorOutcome, _>(e),
                Ok(k) => exists|gjf: Result<Option<Invoker>, ArtifactError>| #[trigger]
                    is_gjf_update(
                        *config,
                        *cache,
                        downloader,
                        host,
                        chars::views(on_disk@),
                        gjf,
                    ) && match gjf {
                        Err(e) => r == Err::<VendorOutcome, _>(e),
                        Ok(g) => is_vendor_result(*config, repo_root@, target_dir@, k, g, r),
                    },
            },
{
    match run_update(config, repo_root, cache, downloader, host, on_disk) {
        Err(e) => Err(e),
        Ok((kt, gjf)) => plan_vendor(config, repo_root, target_dir, kt, gjf),
    }
}

/// What is fetched for a configuration is among the files of the cache that the
/// configuration uses, so pruning spares it.
pub proof fn pruning_spares_what_is_fetched<D: Downloader>(
    c: Config,
    cache: Cache,
    downloader: &D,
    host: Option<NativeAsset>,
    on_disk: Seq<Seq<char>>,
    i: Invoker,
)
    requires
        is_ktfmt_update(c, cache, downloader, on_disk, Ok(Some(i))) || is_gjf_update(
            c,
            cache,
            downloader,
            host,
            on_disk,
            Ok(Some(i)),
        ),
    ensures
        kept_paths(c, cache, host).contains(invoker_path(i)),
{
    let kept = kept_paths(c, cache, host);
    let n: int = if cached_ktfmt_version(c) is Some {
        1
    } else {
        0
    };
    if is_ktfmt_update(c, cache, downloader, on_disk, Ok(Some(i))) {
        assert(kept[0] == invoker_path(i));
    } else {
        let v = cached_gjf_version(c)->0;
        assert(is_obtained_gjf(
            v,
            c.gjf->0.native,
            cache,
            downloader,
            host,
            on_disk,
            Ok(Some(i)),
        ));
        assert(kept[n] == cache.gjf_jar_file(v));
        if c.gjf->0.native != NativeMode::Never && cache::has_native(v, host) {
            assert(kept[n + 1] == cache.gjf_native_file(v, host->0));
        }
    }
}

/// The file of every tool that a configuration takes from the cache is spared by
/// pruning.
pub proof fn pruning_spares_what_is_referenced(c: Config, cache: Cache, host: Option<NativeAsset>)
    ensures
        cached_ktfmt_version(c) matches Some(v) ==> kept_paths(c, cache, host).contains(
            cache.ktfmt_file(v),
        ),
        cached_gjf_version(c) matches Some(v) ==> kept_paths(c, cache, host).contains(
            cache.gjf_jar_file(v),
        ),
        cached_detekt_version(c) matches Some(v) ==> kept_paths(c, cache, host).contains(
            cache.detekt_file(v),
        ),
{
    let kept = kept_paths(c, cache, host);
    let n: int = if cached_ktfmt_version(c) is Some {
        1
    } else {
        0
    };
    if let Some(v) = cached_ktfmt_version(c) {
        assert(kept[0] == cache.ktfmt_file(v));
    }
    if let Some(v) = cached_gjf_version(c) {
        assert(kept[n] == cache.gjf_jar_file(v));
    }
    if let Some(v) = cached_detekt_version(c) {
        assert(kept[kept.len() - 1] == cache.detekt_file(v));
    }
}

/// Tools that a configuration names by a path use no file of the cache.
pub proof fn local_tools_use_no_cache(c: Config, cache: Cache, host: Option<NativeAsset>)
    requires
        c.ktfmt matches Some(k) ==> k.path is Some,
        c.gjf matches Some(g) ==> g.path is Some,
        c.detekt matches Some(d) ==> d.path is Some,
    ensures
        kept_paths(c, cache, host).len() == 0,
{
}

/// google-java-format of a version is the native build just where it is not
/// ruled out and the platform has one, and then its file of the cache; else it is
/// the jar, or an error where only the native build would do.
pub proof fn flavours_by_mode<D: Downloader>(
    version: Seq<char>,
    native: NativeMode,
    cache: Cache,
    downloader: &D,
    host: Option<NativeAsset>,
    on_disk: Seq<Seq<char>>,
    r: Result<Invoker, ArtifactError>,
)
    requires
        is_cached_gjf(version, native, cache, downloader, host, on_disk, r),
    ensures
        native is Never ==> (r matches Ok(i) ==> (i matches Invoker::Jar(p) && p@
            == cache.gjf_jar_file(version))),
        !(native is Never) && cache::has_native(version, host) ==> (r matches Ok(i) ==> (
        i matches Invoker::Native(p) && p@ == cache.gjf_native_file(version, host->0))),
        native is Auto && !cache::has_native(version, host) ==> (r matches Ok(i) ==> (
        i matches Invoker::Jar(p) && p@ == cache.gjf_jar_file(version))),
        native is Always && !cache::has_native(version, host) ==> (r matches Err(
            ArtifactError::NoNative(e),
        ) && e.version@ == version),
        (r matches Err(ArtifactError::NoNative(_))) ==> native is Always && !cache::has_native(
            version,
            host,
        ),
        host is None ==> !cache::has_native(version, host),
{
}

/// A file that is in the cache is used without a download.
pub proof fn cached_files_are_used<D: Downloader>(
    version: Seq<char>,
    cache: Cache,
    downloader: &D,
    on_disk: Seq<Seq<char>>,
    r: Result<Invoker, ArtifactError>,
)
    requires
        is_cached_ktfmt(version, cache, downloader, on_disk, r),
    ensures
        fspath::holds_path(on_disk, cache.ktfmt_file(version)) ==> r is Ok,
        r matches Ok(i) ==> (i matches Invoker::Jar(p) && p@ == cache.ktfmt_file(version)),
{
}

/// A formatter that is named by a path is taken from there, where it is, and not
/// from the cache: ktfmt as a jar, google-java-format as a jar where its name
/// ends in `.jar` and else as a native build.
pub proof fn local_formatters_are_taken_as_they_are<D: Downloader>(
    kt: Ktfmt,
    g: Gjf,
    root: Seq<char>,
    cache: Cache,
    downloader: &D,
    host: Option<NativeAsset>,
    on_disk: Seq<Seq<char>>,
    a: Result<Invoker, ArtifactError>,
    b: Result<Invoker, ArtifactError>,
)
    requires
        is_ktfmt_invoker(kt, root, cache, downloader, on_disk, a),
        is_gjf_invoker(g, root, cache, downloader, host, on_disk, b),
    ensures
        kt.path matches Some(p) ==> {
            &&& a is Ok <==> fspath::holds_path(on_disk, fspath::joined(root, p@))
            &&& a matches Ok(i) ==> i is Jar && invoker_path(i) == fspath::joined(root, p@)
            &&& a is Err ==> (a matches Err(ArtifactError::JarMissing { path }) && path@
                == fspath::joined(root, p@))
        },
        g.path matches Some(p) ==> {
            &&& b is Ok <==> fspath::holds_path(on_disk, fspath::joined(root, p@))
            &&& b matches Ok(i) ==> invoker_path(i) == fspath::joined(root, p@) && (i is Jar
                <==> fspath::suffix(fspath::joined(root, p@)) == Some("jar"@))
            &&& b is Err ==> (b matches Err(ArtifactError::GjfMissing { path }) && path@
                == fspath::joined(root, p@))
        },
{
}

/// A tool uses a version of the cache just where it has a literal version and no
/// path.
pub proof fn cached_versions_are_literal(c: Config)
    ensures
        cached_ktfmt_version(c) is Some <==> (c.ktfmt matches Some(k) && k.path is None
            && k.version is Some && k.version->0 is Literal),
        cached_gjf_version(c) is Some <==> (c.gjf matches Some(g) && g.path is None && g.version
            is Some && g.version->0 is Literal),
        cached_detekt_version(c) is Some <==> (c.detekt matches Some(d) && d.path is None
            && d.version is Some && d.version->0 is Literal),
        cached_ktfmt_version(c) matches Some(v) ==> v == (c.ktfmt->0.version->0)->Literal_0@,
        cached_gjf_version(c) matches Some(v) ==> v == (c.gjf->0.version->0)->Literal_0@,
        cached_detekt_version(c) matches Some(v) ==> v == (c.detekt->0.version->0)->Literal_0@,
{
}

/// Pruning spares no file but those of the versions that the configuration
/// uses, and of native builds only the one of this platform.
pub proof fn pruning_spares_nothing_else(
    c: Config,
    cache: Cache,
    host: Option<NativeAsset>,
    p: Seq<char>,
)
    requires
        kept_paths(c, cache, host).contains(p),
    ensures
        ({
            ||| cached_ktfmt_version(c) matches Some(v) && p == cache.ktfmt_file(v)
            ||| cached_gjf_version(c) matches Some(v) && p == cache.gjf_jar_file(v)
            ||| cached_gjf_version(c) matches Some(v) && host is Some && !(c.gjf->0.native is Never)
                && p == cache.gjf_native_file(v, host->0)
            ||| cached_detekt_version(c) matches Some(v) && p == cache.detekt_file(v)
        }),
{
    let kept = kept_paths(c, cache, host);
    let i = choose|i: int| 0 <= i < kept.len() && kept[i] == p;
    assert(kept[i] == p);
}

/// A formatter is copied into the directory under its own name, and the setting
/// that is shown for it leads from the root to the copy.
pub proof fn copies_keep_their_names(
    e: VendorEntry,
    tool: Seq<char>,
    version: Seq<char>,
    source: Seq<char>,
    root: Seq<char>,
    dir: Seq<char>,
)
    requires
        is_vendor_entry(e, tool, version, source, root, dir),
        fspath::rooted(root),
        dir.len() > 0,
    ensures
        fspath::base_name(e.dest@) == fspath::base_name(source),
        fspath::base_name(source) is Some,
        fspath::within(e.dest@, fspath::joined(root, dir)),
        fspath::parts(fspath::joined(root, e.config_value@)) == fspath::parts(e.dest@),
        fspath::rooted(e.config_value@) <==> fspath::rooted(dir),
        e.source@ == source,
        e.tool@ == tool,
        e.version@ == version,
{
    let name = fspath::base_name(source)->0;
    fspath::lemma_base_name(source);
    let full = fspath::joined(root, dir);
    fspath::joined_name_is_last(full, name);
    fspath::joined_paths_lie_within(full, name);
    fspath::joined_components_follow(full, name);
    if fspath::rooted(dir) {
        assert(full[0] == dir[0]);
        assert(e.dest@[0] == full[0]);
    }
    if !fspath::rooted(dir) {
        let value = fspath::joined(dir, name);
        fspath::joined_components_follow(dir, name);
        fspath::joined_components_follow(root, dir);
        fspath::joined_components_follow(root, value);
        let pd = fspath::parts(dir);
        let pn = fspath::parts(name);
        let pv = fspath::parts(value);
        assert(pv == pd + pn);
        assert(!fspath::rooted(value)) by {
            assert(value[0] == dir[0]);
        }
        if pd.len() > 0 && pd[0] == seq!['.'] {
            assert(pv[0] == seq!['.']);
            assert(pv.skip(1) =~= pd.skip(1) + pn);
            assert(fspath::parts(root) + (pd.skip(1) + pn) =~= (fspath::parts(root) + pd.skip(1))
                + pn);
        } else {
            if pd.len() > 0 {
                assert(pv[0] == pd[0]);
            } else {
                assert(pv =~= pn);
            }
            assert(fspath::parts(root) + (pd + pn) =~= (fspath::parts(root) + pd) + pn);
        }
    }
}

/// A formatter that is not in the cache is downloaded from where its project
/// publishes the version, into its file of the cache.
pub proof fn missing_formatters_are_downloaded<D: Downloader>(
    version: Seq<char>,
    cache: Cache,
    downloader: &D,
    host: Option<NativeAsset>,
    on_disk: Seq<Seq<char>>,
    a: Result<Invoker, ArtifactError>,
    b: Result<Invoker, ArtifactError>,
)
    requires
        is_cached_ktfmt(version, cache, downloader, on_disk, a),
        is_cached_gjf(version, NativeMode::Never, cache, downloader, host, on_disk, b),
    ensures
        !fspath::holds_path(on_disk, cache.ktfmt_file(version)) ==> exists|
            u: &str,
            d: &str,
            got: Result<(), DownloadError>,
        |
            u@ == chars::replace(cache::KTFMT_URL@, "{v}"@, version) && d@ == cache.ktfmt_file(
                version,
            ) && #[trigger] call_ensures(D::download, (downloader, u, d), got) && (got is Ok <==> a
                is Ok),
        !fspath::holds_path(on_disk, cache.gjf_jar_file(version)) ==> exists|
            u: &str,
            d: &str,
            got: Result<(), DownloadError>,
        |
            u@ == chars::replace(cache::GJF_URL@, "{v}"@, version) && d@ == cache.gjf_jar_file(
                version,
            ) && #[trigger] call_ensures(D::download, (downloader, u, d), got) && (got is Ok <==> b
                is Ok),
{
}

/// What is vendored is ktfmt and then google-java-format, each where it has a
/// literal version and no path; one that is configured otherwise is skipped, and
/// one that is not configured is neither.
pub proof fn vendored_by_configuration(
    c: Config,
    root: Seq<char>,
    dir: Seq<char>,
    kt: Option<Invoker>,
    gjf: Option<Invoker>,
    out: VendorOutcome,
)
    requires
        is_vendor_outcome(c, root, dir, kt, gjf, out),
    ensures
        ({
            let k = cached_ktfmt_version(c);
            let g = cached_gjf_version(c);
            &&& out.entries@.len() == (if k is Some {
                1int
            } else {
                0int
            }) + (if g is Some {
                1int
            } else {
                0int
            })
            &&& out.skipped@.len() == (if c.ktfmt is Some && k is None {
                1int
            } else {
                0int
            }) + (if c.gjf is Some && g is None {
                1int
            } else {
                0int
            })
            &&& k matches Some(v) ==> out.entries@[0].tool@ == "ktfmt"@ && out.entries@[0].version@
                == v && out.entries@[0].source@ == invoker_path(kt->0)
            &&& g matches Some(v) ==> out.entries@.last().tool@ == "gjf"@
                && out.entries@.last().version@ == v && out.entries@.last().source@ == invoker_path(
                gjf->0,
            )
            &&& c.ktfmt is Some && k is None ==> out.skipped@[0]@ == "ktfmt"@
            &&& c.gjf is Some && g is None ==> out.skipped@.last()@ == "gjf"@
        }),
{
}

/// Vendoring goes through just where everything that was fetched for a version
/// has a file name.
pub proof fn nameless_files_are_not_vendored(
    c: Config,
    root: Seq<char>,
    dir: Seq<char>,
    kt: Option<Invoker>,
    gjf: Option<Invoker>,
    r: Result<VendorOutcome, ArtifactError>,
)
    requires
        is_vendor_result(c, root, dir, kt, gjf, r),
    ensures
        r is Ok <==> (cached_ktfmt_version(c) is Some ==> fspath::base_name(invoker_path(kt->0))
            is Some) && (cached_gjf_version(c) is Some ==> fspath::base_name(invoker_path(gjf->0))
            is Some),
        r is Err ==> r->Err_0 is NoFileName,
{
}

} // verus!
