//! The cache of downloaded formatters.
//!
//! Cached files carry the version in their name, so that repositories with
//! different versions get along: `ktfmt-<version>.jar`, `gjf-<version>.jar`,
//! `detekt-<version>.jar`, and native builds of google-java-format named
//! `gjf-<version>-<asset>[.exe]`.

use crate::chars;
use crate::fspath;
use crate::text;
use vstd::prelude::*;

verus! {

pub const KTFMT_URL: &'static str =
    "https://repo1.maven.org/maven2/com/facebook/ktfmt/{v}/ktfmt-{v}-with-dependencies.jar";

pub const GJF_URL: &'static str =
    "https://github.com/google/google-java-format/releases/download/v{v}/google-java-format-{v}-all-deps.jar";

pub const GJF_NATIVE_URL: &'static str =
    "https://github.com/google/google-java-format/releases/download/v{v}/google-java-format_{asset}{ext}";

pub const DETEKT_URL: &'static str =
    "https://github.com/detekt/detekt/releases/download/v{v}/detekt-cli-{v}-all.jar";

/// A native build that google-java-format publishes.
#[derive(Debug, Clone, Copy, PartialEq, Eq)]
pub struct NativeAsset {
    /// Platform part of the name, such as `darwin-arm64`.
    pub asset: &'static str,
    /// Empty, or `.exe` on Windows.
    pub exe_suffix: &'static str,
}

/// The name parts of the native build for a platform.
pub open spec fn native_build(os: Seq<char>, arch: Seq<char>) -> Option<(Seq<char>, Seq<char>)> {
    if os == "macos"@ && arch == "aarch64"@ {
        Some(("darwin-arm64"@, ""@))
    } else if os == "linux"@ && arch == "x86_64"@ {
        Some(("linux-x86-64"@, ""@))
    } else if os == "linux"@ && arch == "aarch64"@ {
        Some(("linux-arm64"@, ""@))
    } else if os == "windows"@ && arch == "x86_64"@ {
        Some(("windows-x86-64"@, ".exe"@))
    } else {
        None
    }
}

/// The native build for a platform, if one is published. There is none for
/// Intel Macs and for unknown platforms.
pub fn native_asset_for(os: &str, arch: &str) -> (r: Option<NativeAsset>)
    ensures
        match r {
            Some(a) => native_build(os@, arch@) == Some((a.asset@, a.exe_suffix@)),
            None => native_build(os@, arch@) is None,
        },
{
    if text::same(os, "macos") && text::same(arch, "aarch64") {
        Some(NativeAsset { asset: "darwin-arm64", exe_suffix: "" })
    } else if text::same(os, "linux") && text::same(arch, "x86_64") {
        Some(NativeAsset { asset: "linux-x86-64", exe_suffix: "" })
    } else if text::same(os, "linux") && text::same(arch, "aarch64") {
        Some(NativeAsset { asset: "linux-arm64", exe_suffix: "" })
    } else if text::same(os, "windows") && text::same(arch, "x86_64") {
        Some(NativeAsset { asset: "windows-x86-64", exe_suffix: ".exe" })
    } else {
        None
    }
}

/// The first three numbers of a version; the third counts as zero where it is
/// missing or no number.
pub open spec fn version_numbers(v: Seq<char>) -> Option<(nat, nat, nat)> {
    let parts = chars::split(v, '.');
    if parts.len() < 2 {
        None
    } else {
        match (chars::parse(parts[0], u32::MAX as nat), chars::parse(parts[1], u32::MAX as nat)) {
            (Some(major), Some(minor)) => Some(
                (
                    major,
                    minor,
                    if parts.len() > 2 {
                        match chars::parse(parts[2], u32::MAX as nat) {
                            Some(patch) => patch,
                            None => 0,
                        }
                    } else {
                        0
                    },
                ),
            ),
            _ => None,
        }
    }
}

/// The version is at least `major.minor`.
pub open spec fn version_at_least(v: Seq<char>, major: nat, minor: nat) -> bool {
    match version_numbers(v) {
        Some((a, b, _)) => a > major || (a == major && b >= minor),
        None => false,
    }
}

/// The native build is published for the version.
pub open spec fn native_published(version: Seq<char>, asset: Seq<char>) -> bool {
    version_at_least(version, 1, 20) && (asset == "linux-arm64"@ ==> version_at_least(
        version,
        1,
        26,
    ))
}

fn parse_version(v: &str) -> (r: Option<(u32, u32, u32)>)
    ensures
        match r {
            Some((a, b, c)) => version_numbers(v@) == Some((a as nat, b as nat, c as nat)),
            None => version_numbers(v@) is None,
        },
{
    let parts = text::split(v, '.');
    let ghost all = chars::split(v@, '.');
    assert(all.len() == parts@.len());
    if parts.len() < 2 {
        return None;
    }
    assert(all[0] == parts@[0]@ && all[1] == parts@[1]@);
    let major = match text::parse(&parts[0], u32::MAX as u64) {
        Some(n) => n,
        None => {
            return None;
        },
    };
    let minor = match text::parse(&parts[1], u32::MAX as u64) {
        Some(n) => n,
        None => {
            return None;
        },
    };
    let patch = if parts.len() > 2 {
        assert(all[2] == parts@[2]@);
        match text::parse(&parts[2], u32::MAX as u64) {
            Some(n) => n,
            None => 0,
        }
    } else {
        0
    };
    Some((major as u32, minor as u32, patch as u32))
}

/// Whether the native build is published for the version. Native builds began
/// with 1.20, the one for `linux-arm64` with 1.26.
pub fn native_supported_for_version(version: &str, asset: &NativeAsset) -> (r: bool)
    ensures
        r == native_published(version@, asset.asset@),
{
    let (major, minor, _) = match parse_version(version) {
        Some(v) => v,
        None => {
            return false;
        },
    };
    if major < 1 || (major == 1 && minor < 20) {
        return false;
    }
    if text::same(asset.asset, "linux-arm64") && (major < 1 || (major == 1 && minor < 26)) {
        return false;
    }
    true
}

/// The build of google-java-format that is used.
#[derive(Debug, Clone, Copy, PartialEq, Eq)]
pub enum GjfFlavor {
    Jar,
    Native(NativeAsset),
}

/// A native build that was required is not published.
#[derive(Debug, PartialEq, Eq)]
pub struct NoNativeBuild {
    pub version: String,
}

impl NoNativeBuild {
    /// What the error says.
    pub fn message(&self) -> (r: String)
        ensures
            r@ == "native gjf is not available for version "@ + self.version@
                + " on this platform"@,
    {
        text::cat3(
            "native gjf is not available for version ",
            &self.version,
            " on this platform",
        )
    }
}

/// The host has a native build of the version.
pub open spec fn has_native(version: Seq<char>, host: Option<NativeAsset>) -> bool {
    host matches Some(a) && native_published(version, a.asset@)
}

/// Chooses between the native build and the jar. `host` is the native build of
/// this platform. Without `prefer_native` it is always the jar; with it, the
/// native build where there is one, and else the jar, or an error with
/// `require_native`.
pub fn resolve_gjf_flavor(
    version: &str,
    prefer_native: bool,
    require_native: bool,
    host: Option<NativeAsset>,
) -> (r: Result<GjfFlavor, NoNativeBuild>)
    ensures
        match r {
            Ok(GjfFlavor::Native(a)) => prefer_native && has_native(version@, host) && host == Some(
                a,
            ),
            Ok(GjfFlavor::Jar) => !prefer_native || (!has_native(version@, host)
                && !require_native),
            Err(e) => prefer_native && require_native && !has_native(version@, host) && e.version@
                == version@,
        },
{
    if prefer_native {
        if let Some(asset) = host {
            if native_supported_for_version(version, &asset) {
                return Ok(GjfFlavor::Native(asset));
            }
        }
        if require_native {
            return Err(NoNativeBuild { version: version.to_owned() });
        }
    }
    Ok(GjfFlavor::Jar)
}

/// A failed download, in words.
#[derive(Debug, PartialEq, Eq)]
pub struct DownloadError {
    pub message: String,
}

/// Gets a file from the network.
pub trait Downloader {
    /// Puts what is at `url` into the file `dest`.
    fn download(&self, url: &str, dest: &str) -> Result<(), DownloadError>;
}

/// The downloader of the program, which speaks HTTP.
#[derive(Debug, Clone, Copy)]
pub struct UreqDownloader;

impl UreqDownloader {
    /// What a failed request says.
    pub fn request_failure(&self, url: &str, cause: &str) -> (r: DownloadError)
        ensures
            r.message@ == "download failed: "@ + url@ + ": "@ + cause@,
    {
        DownloadError { message: text::cat4("download failed: ", url, ": ", cause) }
    }

    /// What a failed write says.
    pub fn write_failure(&self, dest: &str, cause: &str) -> (r: DownloadError)
        ensures
            r.message@ == "write failed: "@ + dest@ + ": "@ + cause@,
    {
        DownloadError { message: text::cat4("write failed: ", dest, ": ", cause) }
    }

    /// Name of the file that a download goes into before it is complete.
    pub fn temporary_name(&self, dest: &str) -> (r: String)
        ensures
            r@ == "."@ + (match fspath::base_name(dest@) {
                Some(name) => name,
                None => "kempt-download"@,
            }) + ".tmp"@,
    {
        match fspath::file_name(dest) {
            Some(name) => text::cat3(".", &name, ".tmp"),
            None => text::cat3(".", "kempt-download", ".tmp"),
        }
    }
}

/// A file of the cache.
#[derive(Debug, PartialEq, Eq)]
pub struct CacheEntry {
    pub path: String,
    pub size: u64,
}

/// An entry of the cache directory.
#[derive(Debug, PartialEq, Eq)]
pub struct DirectoryEntry {
    pub path: String,
    pub is_file: bool,
    pub size: u64,
}

/// The cache directory.
#[derive(Debug)]
pub struct Cache {
    pub root: String,
}

/// A file to be downloaded.
#[derive(Debug, PartialEq, Eq)]
pub struct Download {
    pub url: String,
    pub dest: String,
}

/// What has to be downloaded so that `dest` is there: nothing where it already
/// is.
pub open spec fn wanted_download(present: bool, url: Seq<char>, dest: Seq<char>) -> Option<
    (Seq<char>, Seq<char>),
> {
    if present {
        None
    } else {
        Some((url, dest))
    }
}

/// What has to be downloaded so that `dest` is there.
pub fn wanted(present: bool, url: String, dest: String) -> (r: Option<Download>)
    ensures
        match r {
            Some(d) => wanted_download(present, url@, dest@) == Some((d.url@, d.dest@)),
            None => wanted_download(present, url@, dest@) is None,
        },
        r is Some <==> !present,
{
    if present {
        None
    } else {
        Some(Download { url, dest })
    }
}

/// The outcome of fetching `dest` from `url`: what is there stays, and what is
/// not is downloaded.
pub open spec fn fetched<D: Downloader>(
    downloader: &D,
    url: Seq<char>,
    dest: Seq<char>,
    present: bool,
    r: Result<String, DownloadError>,
) -> bool {
    match wanted_download(present, url, dest) {
        None => r matches Ok(p) && p@ == dest,
        Some((from, to)) => is_downloaded(downloader, from, to, r),
    }
}

/// The outcome of downloading `dest` from `url`.
pub open spec fn is_downloaded<D: Downloader>(
    downloader: &D,
    url: Seq<char>,
    dest: Seq<char>,
    r: Result<String, DownloadError>,
) -> bool {
    exists|u: &str, d: &str, got: Result<(), DownloadError>|
        u@ == url && d@ == dest && #[trigger] call_ensures(D::download, (downloader, u, d), got)
            && match got {
            Ok(_) => r matches Ok(p) && p@ == dest,
            Err(e) => r == Err::<String, _>(e),
        }
}

/// What is downloaded over `n` times of fetching `dest` from `url`, where each
/// download leaves the file there.
pub open spec fn downloads(present: bool, url: Seq<char>, dest: Seq<char>, n: nat) -> Seq<
    (Seq<char>, Seq<char>),
>
    decreases n,
{
    if n == 0 {
        Seq::empty()
    } else {
        (match wanted_download(present, url, dest) {
            Some(d) => seq![d],
            None => Seq::<(Seq<char>, Seq<char>)>::empty(),
        }) + downloads(true, url, dest, (n - 1) as nat)
    }
}

proof fn lemma_nothing_left_to_download(url: Seq<char>, dest: Seq<char>, n: nat)
    ensures
        downloads(true, url, dest, n) == Seq::<(Seq<char>, Seq<char>)>::empty(),
    decreases n,
{
    if n > 0 {
        lemma_nothing_left_to_download(url, dest, (n - 1) as nat);
        assert(downloads(true, url, dest, n) =~= Seq::<(Seq<char>, Seq<char>)>::empty());
    }
}

/// However often a file is fetched, it is downloaded once where it was not there
/// at the start and never where it was; and where downloads go well, fetching
/// always gives the path of the file.
pub proof fn fetching_again_downloads_nothing<D: Downloader>(
    downloader: &D,
    present: bool,
    url: Seq<char>,
    dest: Seq<char>,
    n: nat,
    r: Result<String, DownloadError>,
)
    requires
        n > 0,
        forall|u: &str, d: &str, got: Result<(), DownloadError>| #[trigger]
            call_ensures(D::download, (downloader, u, d), got) ==> got is Ok,
        fetched(downloader, url, dest, present, r),
    ensures
        downloads(present, url, dest, n) == if present {
            Seq::<(Seq<char>, Seq<char>)>::empty()
        } else {
            seq![(url, dest)]
        },
        r matches Ok(p) && p@ == dest,
{
    lemma_nothing_left_to_download(url, dest, (n - 1) as nat);
    assert(downloads(present, url, dest, n) =~= if present {
        Seq::<(Seq<char>, Seq<char>)>::empty()
    } else {
        seq![(url, dest)]
    });
}

impl Cache {
    /// The cache below a directory.
    pub fn new(root: String) -> (r: Self)
        ensures
            r.root == root,
    {
        Cache { root }
    }

    /// Where the cache is, given the `KEMPT_CACHE_DIR` and `HOME` variables;
    /// nothing where neither is set.
    pub fn default_root(custom: Option<String>, home: Option<String>) -> (r: Option<String>)
        ensures
            match custom {
                Some(c) => r == Some(c),
                None => match home {
                    Some(h) => r matches Some(p) && p@ == fspath::joined(
                        fspath::joined(h@, ".kempt"@),
                        "cache"@,
                    ),
                    None => r is None,
                },
            },
    {
        if let Some(c) = custom {
            return Some(c);
        }
        match home {
            Some(h) => Some(fspath::join(&fspath::join(&h, ".kempt"), "cache")),
            None => None,
        }
    }

    /// The cache directory.
    pub fn root(&self) -> (r: &str)
        ensures
            r@ == self.root@,
    {
        self.root.as_str()
    }

    pub open spec fn ktfmt_file(self, version: Seq<char>) -> Seq<char> {
        fspath::joined(self.root@, "ktfmt-"@ + version + ".jar"@)
    }

    pub open spec fn gjf_jar_file(self, version: Seq<char>) -> Seq<char> {
        fspath::joined(self.root@, "gjf-"@ + version + ".jar"@)
    }

    pub open spec fn detekt_file(self, version: Seq<char>) -> Seq<char> {
        fspath::joined(self.root@, "detekt-"@ + version + ".jar"@)
    }

    pub open spec fn gjf_native_file(self, version: Seq<char>, asset: NativeAsset) -> Seq<char> {
        fspath::joined(
            self.root@,
            "gjf-"@ + version + "-"@ + asset.asset@ + asset.exe_suffix@,
        )
    }

    /// Where the ktfmt jar of a version is kept.
    pub fn ktfmt_path(&self, version: &str) -> (r: String)
        ensures
            r@ == self.ktfmt_file(version@),
    {
        fspath::join(&self.root, &text::cat3("ktfmt-", version, ".jar"))
    }

    /// Where the google-java-format jar of a version is kept.
    pub fn gjf_jar_path(&self, version: &str) -> (r: String)
        ensures
            r@ == self.gjf_jar_file(version@),
    {
        fspath::join(&self.root, &text::cat3("gjf-", version, ".jar"))
    }

    /// Where the detekt jar of a version is kept.
    pub fn detekt_path(&self, version: &str) -> (r: String)
        ensures
            r@ == self.detekt_file(version@),
    {
        fspath::join(&self.root, &text::cat3("detekt-", version, ".jar"))
    }

    /// Where the native google-java-format of a version is kept.
    pub fn gjf_native_path(&self, version: &str, asset: &NativeAsset) -> (r: String)
        ensures
            r@ == self.gjf_native_file(version@, *asset),
    {
        let mut name = text::cat4("gjf-", version, "-", asset.asset);
        name.push_str(asset.exe_suffix);
        fspath::join(&self.root, &name)
    }

    /// Makes sure that the ktfmt jar of a version is there. `present` says
    /// whether it already is.
    pub fn ensure_ktfmt<D: Downloader>(&self, version: &str, present: bool, downloader: &D) -> (r:
        Result<String, DownloadError>)
        ensures
            fetched(
                downloader,
                chars::replace(KTFMT_URL@, "{v}"@, version@),
                self.ktfmt_file(version@),
                present,
                r,
            ),
    {
        let dest = self.ktfmt_path(version);
        let url = text::replace(KTFMT_URL, "{v}", version);
        self.ensure(dest, &url, present, downloader)
    }

    /// Makes sure that the google-java-format jar of a version is there.
    pub fn ensure_gjf_jar<D: Downloader>(&self, version: &str, present: bool, downloader: &D) -> (r:
        Result<String, DownloadError>)
        ensures
            fetched(
                downloader,
                chars::replace(GJF_URL@, "{v}"@, version@),
                self.gjf_jar_file(version@),
                present,
                r,
            ),
    {
        let dest = self.gjf_jar_path(version);
        let url = text::replace(GJF_URL, "{v}", version);
        self.ensure(dest, &url, present, downloader)
    }

    /// Makes sure that the detekt jar of a version is there.
    pub fn ensure_detekt<D: Downloader>(&self, version: &str, present: bool, downloader: &D) -> (r:
        Result<String, DownloadError>)
        ensures
            fetched(
                downloader,
                chars::replace(DETEKT_URL@, "{v}"@, version@),
                self.detekt_file(version@),
                present,
                r,
            ),
    {
        let dest = self.detekt_path(version);
        let url = text::replace(DETEKT_URL, "{v}", version);
        self.ensure(dest, &url, present, downloader)
    }

    /// Makes sure that the native google-java-format of a version is there. The
    /// caller has to make it executable, and to know that it is published; see
    /// [`native_supported_for_version`].
    pub fn ensure_gjf_native<D: Downloader>(
        &self,
        version: &str,
        asset: &NativeAsset,
        present: bool,
        downloader: &D,
    ) -> (r: Result<String, DownloadError>)
        ensures
            fetched(
                downloader,
                chars::replace(
                    chars::replace(
                        chars::replace(GJF_NATIVE_URL@, "{v}"@, version@),
                        "{asset}"@,
                        asset.asset@,
                    ),
                    "{ext}"@,
                    asset.exe_suffix@,
                ),
                self.gjf_native_file(version@, *asset),
                present,
                r,
            ),
    {
        let dest = self.gjf_native_path(version, asset);
        let url = text::replace(
            &text::replace(
                &text::replace(GJF_NATIVE_URL, "{v}", version),
                "{asset}",
                asset.asset,
            ),
            "{ext}",
            asset.exe_suffix,
        );
        self.ensure(dest, &url, present, downloader)
    }

    fn ensure<D: Downloader>(&self, dest: String, url: &str, present: bool, downloader: &D) -> (r:
        Result<String, DownloadError>)
        ensures
            fetched(downloader, url@, dest@, present, r),
    {
        match wanted(present, url.to_owned(), dest.clone()) {
            None => Ok(dest),
            Some(d) => {
                let got = downloader.download(&d.url, &d.dest);
                match got {
                    Ok(_) => Ok(dest),
                    Err(e) => Err(e),
                }
            },
        }
    }

    /// The managed files among the entries of the cache directory, in path
    /// order. There are no entries where the directory does not exist.
    pub fn list_entries(&self, listing: &Vec<DirectoryEntry>) -> (r: Vec<CacheEntry>)
        ensures
            entry_views(r@) == managed(listing@),
    {
        let mut r: Vec<CacheEntry> = Vec::new();
        let mut i: usize = 0;
        assert(entry_views(r@) =~= managed(listing@.take(0)));
        while i < listing.len()
            invariant
                i <= listing.len(),
                entry_views(r@) == managed(listing@.take(i as int)),
            decreases listing.len() - i,
        {
            assert(listing@.take(i + 1).drop_last() =~= listing@.take(i as int));
            if is_managed_entry(&listing[i]) {
                insert_entry(
                    &mut r,
                    CacheEntry { path: listing[i].path.clone(), size: listing[i].size },
                );
            }
            i += 1;
        }
        assert(listing@.take(i as int) =~= listing@);
        r
    }

    /// The paths of the entries that are not to be kept, in their order.
    pub fn prune(&self, entries: &Vec<CacheEntry>, keep: &Vec<String>) -> (r: Vec<String>)
        ensures
            chars::views(r@) == unkept(entry_views(entries@), chars::views(keep@)),
    {
        let ghost all = entry_views(entries@);
        let mut r: Vec<String> = Vec::new();
        let mut i: usize = 0;
        assert(chars::views(r@) =~= unkept(all.take(0), chars::views(keep@)));
        while i < entries.len()
            invariant
                i <= entries.len(),
                all == entry_views(entries@),
                chars::views(r@) == unkept(all.take(i as int), chars::views(keep@)),
            decreases entries.len() - i,
        {
            let ghost before = chars::views(r@);
            assert(all.take(i + 1).drop_last() =~= all.take(i as int));
            assert(all[i as int].0 == entries@[i as int].path@);
            if !fspath::holds(keep, &entries[i].path) {
                r.push(entries[i].path.clone());
                assert(chars::views(r@) =~= before.push(entries@[i as int].path@));
            }
            i += 1;
        }
        assert(all.take(i as int) =~= all);
        r
    }
}

/// Paths and sizes of entries.
pub open spec fn entry_views(v: Seq<CacheEntry>) -> Seq<(Seq<char>, u64)> {
    v.map_values(|e: CacheEntry| (e.path@, e.size))
}

/// A name that a cached formatter can have.
pub open spec fn is_artifact_name(name: Seq<char>) -> bool {
    if chars::starts_with(name, "ktfmt-"@) {
        is_versioned_jar(name.skip("ktfmt-"@.len() as int))
    } else if chars::starts_with(name, "detekt-"@) {
        is_versioned_jar(name.skip("detekt-"@.len() as int))
    } else {
        chars::starts_with(name, "gjf-"@) && is_gjf_rest(name.skip("gjf-"@.len() as int))
    }
}

/// Begins with a digit and ends as a jar does.
pub open spec fn is_versioned_jar(rest: Seq<char>) -> bool {
    begins_with_digit(rest) && chars::ends_with(rest, ".jar"@)
}

/// Begins with a digit and ends as a build of google-java-format does.
pub open spec fn is_gjf_rest(rest: Seq<char>) -> bool {
    begins_with_digit(rest) && (chars::ends_with(rest, ".jar"@) || chars::ends_with(rest, ".exe"@)
        || chars::ends_with(rest, "-darwin-arm64"@) || chars::ends_with(rest, "-linux-x86-64"@)
        || chars::ends_with(rest, "-linux-arm64"@))
}

pub open spec fn begins_with_digit(s: Seq<char>) -> bool {
    s.len() > 0 && chars::is_digit(s[0])
}

/// A cached formatter among the entries of the cache directory.
pub open spec fn is_managed(e: DirectoryEntry) -> bool {
    e.is_file && (fspath::base_name(e.path@) matches Some(name) && !(name.len() > 0 && name[0]
        == '.') && is_artifact_name(name))
}

/// `e` put behind all entries that do not come after it.
pub open spec fn entry_inserted(s: Seq<(Seq<char>, u64)>, e: (Seq<char>, u64)) -> Seq<
    (Seq<char>, u64),
>
    decreases s.len(),
{
    if s.len() == 0 {
        seq![e]
    } else if fspath::path_less(e.0, s.last().0) {
        entry_inserted(s.drop_last(), e).push(s.last())
    } else {
        s.push(e)
    }
}

/// The cached formatters among the entries, in path order.
pub open spec fn managed(listing: Seq<DirectoryEntry>) -> Seq<(Seq<char>, u64)>
    decreases listing.len(),
{
    if listing.len() == 0 {
        Seq::empty()
    } else {
        let rest = managed(listing.drop_last());
        if is_managed(listing.last()) {
            entry_inserted(rest, (listing.last().path@, listing.last().size))
        } else {
            rest
        }
    }
}

/// The paths that are not to be kept.
pub open spec fn unkept(entries: Seq<(Seq<char>, u64)>, keep: Seq<Seq<char>>) -> Seq<Seq<char>>
    decreases entries.len(),
{
    if entries.len() == 0 {
        Seq::empty()
    } else {
        let rest = unkept(entries.drop_last(), keep);
        if fspath::holds_path(keep, entries.last().0) {
            rest
        } else {
            rest.push(entries.last().0)
        }
    }
}

fn starts_with_digit(s: &str) -> (r: bool)
    ensures
        r == begins_with_digit(s@),
{
    let v = text::chars_of(s);
    v.len() > 0 && '0' <= v[0] && v[0] <= '9'
}

/// Whether a cached formatter can have this name.
pub fn is_kempt_artifact_name(name: &str) -> (r: bool)
    ensures
        r == is_artifact_name(name@),
{
    if let Some(rest) = text::strip_prefix(name, "ktfmt-") {
        return starts_with_digit(&rest) && text::ends_with(&rest, ".jar");
    }
    if let Some(rest) = text::strip_prefix(name, "detekt-") {
        return starts_with_digit(&rest) && text::ends_with(&rest, ".jar");
    }
    match text::strip_prefix(name, "gjf-") {
        None => false,
        Some(rest) => starts_with_digit(&rest) && (text::ends_with(&rest, ".jar")
            || text::ends_with(&rest, ".exe") || text::ends_with(&rest, "-darwin-arm64")
            || text::ends_with(&rest, "-linux-x86-64") || text::ends_with(&rest, "-linux-arm64")),
    }
}

fn is_managed_entry(e: &DirectoryEntry) -> (r: bool)
    ensures
        r == is_managed(*e),
{
    if !e.is_file {
        return false;
    }
    let name = match fspath::file_name(&e.path) {
        Some(n) => n,
        None => {
            return false;
        },
    };
    let v = text::chars_of(&name);
    if v.len() > 0 && v[0] == '.' {
        return false;
    }
    is_kempt_artifact_name(&name)
}

fn insert_entry(v: &mut Vec<CacheEntry>, e: CacheEntry)
    ensures
        entry_views(final(v)@) == entry_inserted(entry_views(old(v)@), (e.path@, e.size)),
{
    let ghost s = entry_views(v@);
    let ghost x = (e.path@, e.size);
    let mut i: usize = v.len();
    assert(s.take(i as int) =~= s);
    assert(entry_inserted(s, x) =~= entry_inserted(s.take(i as int), x) + s.skip(i as int));
    while i > 0 && fspath::less(&e.path, &v[i - 1].path)
        invariant
            i <= v.len(),
            s == entry_views(v@),
            v@ == old(v)@,
            x == (e.path@, e.size),
            entry_inserted(s, x) == entry_inserted(s.take(i as int), x) + s.skip(i as int),
        decreases i,
    {
        proof {
            let t = s.take(i as int);
            assert(t.last().0 == v@[i - 1].path@);
            assert(t.drop_last() =~= s.take(i - 1));
            assert(entry_inserted(t, x) + s.skip(i as int) =~= entry_inserted(s.take(i - 1), x)
                + s.skip(i - 1));
        }
        i -= 1;
    }
    proof {
        let t = s.take(i as int);
        if i > 0 {
            assert(t.last().0 == v@[i - 1].path@);
        }
        assert(entry_inserted(t, x) =~= t.push(x));
    }
    v.insert(i, e);
    assert(entry_views(v@) =~= s.take(i as int).push(x) + s.skip(i as int));
}

/// Entries do not come before those that stand before them.
pub open spec fn in_order(s: Seq<(Seq<char>, u64)>) -> bool {
    forall|i: int, j: int|
        0 <= i < j < s.len() ==> !fspath::path_less((#[trigger] s[j]).0, (#[trigger] s[i]).0)
}

proof fn lemma_entry_inserted(s: Seq<(Seq<char>, u64)>, e: (Seq<char>, u64))
    requires
        in_order(s),
    ensures
        in_order(entry_inserted(s, e)),
        entry_inserted(s, e).len() == s.len() + 1,
        forall|i: int|
            0 <= i < entry_inserted(s, e).len() ==> entry_inserted(s, e)[i] == e || s.contains(
                #[trigger] entry_inserted(s, e)[i],
            ),
        entry_inserted(s, e).contains(e),
        forall|i: int| 0 <= i < s.len() ==> entry_inserted(s, e).contains(#[trigger] s[i]),
    decreases s.len(),
{
    let r = entry_inserted(s, e);
    if s.len() == 0 {
        assert(r[0] == e);
    } else if fspath::path_less(e.0, s.last().0) {
        let t = s.drop_last();
        assert(in_order(t));
        lemma_entry_inserted(t, e);
        let u = entry_inserted(t, e);
        fspath::path_order_is_total(e.0, s.last().0);
        assert forall|i: int, j: int| 0 <= i < j < r.len() implies !fspath::path_less(
            (#[trigger] r[j]).0,
            (#[trigger] r[i]).0,
        ) by {
            if j == r.len() - 1 {
                assert(r[i] == u[i]);
                if u[i] != e {
                    assert(t.contains(u[i]));
                    let k = choose|k: int| 0 <= k < t.len() && t[k] == u[i];
                    assert(!fspath::path_less(s[s.len() - 1].0, s[k].0));
                }
            } else {
                assert(r[i] == u[i] && r[j] == u[j]);
            }
        }
        assert forall|i: int| 0 <= i < r.len() implies r[i] == e || s.contains(#[trigger] r[i]) by {
            if i < r.len() - 1 {
                assert(r[i] == u[i]);
                if u[i] != e {
                    let k = choose|k: int| 0 <= k < t.len() && t[k] == u[i];
                    assert(s[k] == r[i]);
                }
            } else {
                assert(r[i] == s[s.len() - 1]);
            }
        }
        assert(r.contains(e)) by {
            let k = choose|k: int| 0 <= k < u.len() && u[k] == e;
            assert(r[k] == e);
        }
        assert forall|i: int| 0 <= i < s.len() implies r.contains(#[trigger] s[i]) by {
            if i < s.len() - 1 {
                assert(t[i] == s[i]);
                let k = choose|k: int| 0 <= k < u.len() && u[k] == t[i];
                assert(r[k] == s[i]);
            } else {
                assert(r[r.len() - 1] == s[i]);
            }
        }
    } else {
        assert forall|i: int, j: int| 0 <= i < j < r.len() implies !fspath::path_less(
            (#[trigger] r[j]).0,
            (#[trigger] r[i]).0,
        ) by {
            if j == r.len() - 1 {
                let last = s[s.len() - 1].0;
                if i < s.len() - 1 {
                    assert(!fspath::path_less(s[s.len() - 1].0, s[i].0));
                    if fspath::path_less(e.0, s[i].0) {
                        fspath::path_order_is_total(s[i].0, last);
                        if fspath::path_less(s[i].0, last) {
                            fspath::path_order_is_transitive(e.0, s[i].0, last);
                        }
                    }
                }
            } else {
                assert(r[i] == s[i] && r[j] == s[j]);
            }
        }
        assert(r[s.len() as int] == e);
        assert forall|i: int| 0 <= i < s.len() implies r.contains(#[trigger] s[i]) by {
            assert(r[i] == s[i]);
        }
    }
}

/// The entries listed are in path order and are exactly the managed ones.
#[verifier::spinoff_prover]
pub proof fn listing_is_sorted_and_complete(listing: Seq<DirectoryEntry>)
    ensures
        in_order(managed(listing)),
        forall|i: int|
            0 <= i < listing.len() && is_managed(#[trigger] listing[i]) ==> managed(
                listing,
            ).contains((listing[i].path@, listing[i].size)),
        forall|k: int|
            0 <= k < managed(listing).len() ==> exists|i: int|
                0 <= i < listing.len() && is_managed(#[trigger] listing[i]) && (
                    listing[i].path@,
                    listing[i].size,
                ) == #[trigger] managed(listing)[k],
    decreases listing.len(),
{
    if listing.len() > 0 {
        let init = listing.drop_last();
        listing_is_sorted_and_complete(init);
        let m = managed(init);
        let last = listing.last();
        let e = (last.path@, last.size);
        let r = managed(listing);
        let here = is_managed(last);
        assert(r == if here {
            entry_inserted(m, e)
        } else {
            m
        });
        if here {
            lemma_entry_inserted(m, e);
        }
        assert forall|i: int| 0 <= i < listing.len() && is_managed(#[trigger] listing[i]) implies r.contains(
            (listing[i].path@, listing[i].size),
        ) by {
            if i < listing.len() - 1 {
                assert(init[i] == listing[i]);
                assert(m.contains((init[i].path@, init[i].size)));
                let k = choose|k: int| 0 <= k < m.len() && m[k] == (init[i].path@, init[i].size);
                if here {
                    assert(entry_inserted(m, e).contains(m[k]));
                }
                assert(r.contains((listing[i].path@, listing[i].size)));
            } else {
                assert(listing[i] == last);
                assert(r.contains(e));
            }
        }
        assert forall|k: int| 0 <= k < r.len() implies exists|i: int|
            0 <= i < listing.len() && is_managed(#[trigger] listing[i]) && (
                listing[i].path@,
                listing[i].size,
            ) == #[trigger] r[k] by {
            if here && r[k] == e {
                let n = listing.len() - 1;
                assert(is_managed(listing[n]) && (listing[n].path@, listing[n].size) == r[k]);
            } else {
                assert(m.contains(r[k])) by {
                    if here {
                        assert(entry_inserted(m, e)[k] == r[k]);
                    } else {
                        assert(m[k] == r[k]);
                    }
                }
                let q = choose|q: int| 0 <= q < m.len() && m[q] == r[k];
                let i = choose|i: int|
                    0 <= i < init.len() && is_managed(#[trigger] init[i]) && (
                        init[i].path@,
                        init[i].size,
                    ) == m[q];
                assert(init[i] == listing[i]);
                assert(is_managed(listing[i]) && (listing[i].path@, listing[i].size) == r[k]);
            }
        }
    }
}

/// What is pruned is exactly what is not to be kept.
pub proof fn prune_removes_exactly_the_unkept(
    entries: Seq<(Seq<char>, u64)>,
    keep: Seq<Seq<char>>,
    i: int,
)
    requires
        0 <= i < entries.len(),
    ensures
        !fspath::holds_path(keep, entries[i].0) ==> unkept(entries, keep).contains(entries[i].0),
        forall|k: int|
            0 <= k < unkept(entries, keep).len() ==> !fspath::holds_path(
                keep,
                #[trigger] unkept(entries, keep)[k],
            ),
    decreases entries.len(),
{
    let init = entries.drop_last();
    let rest = unkept(init, keep);
    let r = unkept(entries, keep);
    if init.len() > 0 {
        let j = if i < entries.len() - 1 {
            i
        } else {
            0
        };
        prune_removes_exactly_the_unkept(init, keep, j);
    }
    if !fspath::holds_path(keep, entries[i].0) {
        if i < entries.len() - 1 {
            let k = choose|k: int| 0 <= k < rest.len() && rest[k] == init[i].0;
            assert(r[k] == entries[i].0);
        } else {
            assert(r[r.len() - 1] == entries[i].0);
        }
    }
    assert forall|k: int| 0 <= k < r.len() implies !fspath::holds_path(keep, #[trigger] r[k]) by {
        if k < rest.len() {
            assert(r[k] == rest[k]);
        }
    }
}

/// The entry is a file at this path.
pub open spec fn is_file_at(e: DirectoryEntry, path: Seq<char>) -> bool {
    e.is_file && e.path@ == path
}

/// A name that is made of a tool and a version without separators is the last
/// component of the path below the cache directory.
proof fn lemma_artifact_name(
    root: Seq<char>,
    prefix: Seq<char>,
    version: Seq<char>,
    suffix: Seq<char>,
)
    requires
        prefix.len() > 1,
        prefix[0] != '/' && prefix[0] != '.',
        !prefix.contains('/'),
        !version.contains('/'),
        !suffix.contains('/'),
        begins_with_digit(version),
    ensures
        ({
            let name = prefix + version + suffix;
            &&& fspath::base_name(fspath::joined(root, name)) == Some(name)
            &&& name.len() > 0 && name[0] == prefix[0]
            &&& chars::starts_with(name, prefix)
            &&& begins_with_digit(name.skip(prefix.len() as int))
            &&& chars::ends_with(name.skip(prefix.len() as int), suffix)
        }),
{
    let name = prefix + version + suffix;
    let rest = name.skip(prefix.len() as int);
    assert(name[0] == prefix[0]);
    if name.contains('/') {
        let i = choose|i: int| 0 <= i < name.len() && name[i] == '/';
        if i < prefix.len() {
            assert(prefix[i] == '/');
        } else if i < prefix.len() + version.len() {
            assert(version[i - prefix.len()] == '/');
        } else {
            assert(suffix[i - prefix.len() - version.len()] == '/');
        }
    }
    assert(fspath::here_part()[0] == '.');
    assert(fspath::parent_part()[0] == '.');
    fspath::joined_name_is_last(root, name);
    assert(name.take(prefix.len() as int) =~= prefix);
    assert(rest[0] == version[0]);
    assert(rest.skip(rest.len() - suffix.len()) =~= suffix);
}

/// All that the cache stores is listed: the file of every version that begins
/// with a digit and holds no separator has a managed name, the native builds of
/// all platforms among them.
pub proof fn stored_files_are_managed(
    cache: Cache,
    version: Seq<char>,
    asset: NativeAsset,
    os: Seq<char>,
    arch: Seq<char>,
    e: DirectoryEntry,
)
    requires
        begins_with_digit(version),
        !version.contains('/'),
        native_build(os, arch) == Some((asset.asset@, asset.exe_suffix@)),
        is_file_at(e, cache.ktfmt_file(version)) || is_file_at(e, cache.gjf_jar_file(version))
            || is_file_at(e, cache.detekt_file(version)) || is_file_at(
            e,
            cache.gjf_native_file(version, asset),
        ),
    ensures
        fspath::base_name(e.path@) matches Some(name) && is_artifact_name(name),
        is_managed(e),
{
    reveal_strlit("ktfmt-");
    reveal_strlit("gjf-");
    reveal_strlit("detekt-");
    reveal_strlit(".jar");
    reveal_strlit("-");
    reveal_strlit("");
    reveal_strlit(".exe");
    reveal_strlit("darwin-arm64");
    reveal_strlit("linux-x86-64");
    reveal_strlit("linux-arm64");
    reveal_strlit("windows-x86-64");
    reveal_strlit("-darwin-arm64");
    reveal_strlit("-linux-x86-64");
    reveal_strlit("-linux-arm64");
    if is_file_at(e, cache.ktfmt_file(version)) {
        lemma_artifact_name(cache.root@, "ktfmt-"@, version, ".jar"@);
    } else if is_file_at(e, cache.gjf_jar_file(version)) {
        lemma_artifact_name(cache.root@, "gjf-"@, version, ".jar"@);
        lemma_gjf_name("gjf-"@ + version + ".jar"@);
    } else if is_file_at(e, cache.detekt_file(version)) {
        lemma_artifact_name(cache.root@, "detekt-"@, version, ".jar"@);
        let name = "detekt-"@ + version + ".jar"@;
        assert(name[0] == 'd');
    } else {
        let suffix = "-"@ + asset.asset@ + asset.exe_suffix@;
        let name = "gjf-"@ + version + suffix;
        assert("gjf-"@ + version + "-"@ + asset.asset@ + asset.exe_suffix@ =~= name);
        lemma_artifact_name(cache.root@, "gjf-"@, version, suffix);
        lemma_gjf_name(name);
        let rest = name.skip("gjf-"@.len() as int);
        if asset.asset@ == "windows-x86-64"@ {
            assert(rest.skip(rest.len() - 4) =~= ".exe"@);
        } else if asset.asset@ == "darwin-arm64"@ {
            assert(suffix =~= "-darwin-arm64"@);
        } else if asset.asset@ == "linux-x86-64"@ {
            assert(suffix =~= "-linux-x86-64"@);
        } else {
            assert(suffix =~= "-linux-arm64"@);
        }
    }
}

/// A name of google-java-format is that of no other tool.
proof fn lemma_gjf_name(name: Seq<char>)
    requires
        name.len() > 0,
        name[0] == 'g',
    ensures
        !chars::starts_with(name, "ktfmt-"@),
        !chars::starts_with(name, "detekt-"@),
{
    reveal_strlit("ktfmt-");
    reveal_strlit("detekt-");
    if chars::starts_with(name, "ktfmt-"@) {
        assert("ktfmt-"@[0] == name[0]);
    }
    if chars::starts_with(name, "detekt-"@) {
        assert("detekt-"@[0] == name[0]);
    }
}

/// Different versions never share a file.
pub proof fn versions_are_kept_apart(cache: Cache, v: Seq<char>, w: Seq<char>)
    requires
        v != w,
    ensures
        cache.ktfmt_file(v) != cache.ktfmt_file(w),
        cache.gjf_jar_file(v) != cache.gjf_jar_file(w),
        cache.detekt_file(v) != cache.detekt_file(w),
{
    reveal_strlit("ktfmt-");
    reveal_strlit("gjf-");
    reveal_strlit("detekt-");
    lemma_file_names_differ(cache.root@, "ktfmt-"@, v, w);
    lemma_file_names_differ(cache.root@, "gjf-"@, v, w);
    lemma_file_names_differ(cache.root@, "detekt-"@, v, w);
}

proof fn lemma_file_names_differ(root: Seq<char>, prefix: Seq<char>, v: Seq<char>, w: Seq<char>)
    requires
        v != w,
        prefix.len() > 0,
        prefix[0] != '/',
    ensures
        fspath::joined(root, prefix + v + ".jar"@) != fspath::joined(root, prefix + w + ".jar"@),
{
    let a = prefix + v + ".jar"@;
    let b = prefix + w + ".jar"@;
    let base = if root.len() > 0 && root.last() != '/' {
        root.push('/')
    } else {
        root
    };
    assert(a[0] == prefix[0] && b[0] == prefix[0]);
    if base + a == base + b {
        assert((base + a).skip(base.len() as int) =~= a);
        assert((base + b).skip(base.len() as int) =~= b);
        assert(a.len() == b.len());
        assert(a.subrange(prefix.len() as int, (prefix.len() + v.len()) as int) =~= v);
        assert(b.subrange(prefix.len() as int, (prefix.len() + w.len()) as int) =~= w);
    }
}

/// google-java-format has native builds for just four platforms: Macs with ARM,
/// Linux on either processor, and Windows on x86, whose files end in `.exe`.
pub proof fn native_builds_by_platform(os: Seq<char>, arch: Seq<char>)
    ensures
        native_build("macos"@, "aarch64"@) == Some(("darwin-arm64"@, ""@)),
        native_build("linux"@, "x86_64"@) == Some(("linux-x86-64"@, ""@)),
        native_build("linux"@, "aarch64"@) == Some(("linux-arm64"@, ""@)),
        native_build("windows"@, "x86_64"@) == Some(("windows-x86-64"@, ".exe"@)),
        native_build(os, arch) is Some <==> {
            ||| arch == "aarch64"@ && (os == "macos"@ || os == "linux"@)
            ||| arch == "x86_64"@ && (os == "windows"@ || os == "linux"@)
        },
{
    reveal_strlit("macos");
    reveal_strlit("linux");
    reveal_strlit("windows");
    reveal_strlit("aarch64");
    reveal_strlit("x86_64");
    assert("macos"@[0] != "linux"@[0]);
    assert("aarch64"@.len() != "x86_64"@.len());
    assert("windows"@.len() != "linux"@.len());
}

/// A version `major.minor`, whatever follows after another dot, is read as these
/// two numbers.
proof fn lemma_written_version(major: nat, minor: nat, tail: Seq<char>)
    requires
        major <= u32::MAX,
        minor <= u32::MAX,
        tail.len() == 0 || tail[0] == '.',
    ensures
        version_numbers(chars::decimal(major).push('.') + chars::decimal(minor) + tail) matches Some(
            (a, b, _),
        ) && a == major && b == minor,
{
    let a = chars::decimal(major);
    let b = chars::decimal(minor);
    let v = a.push('.') + b + tail;
    chars::lemma_decimal_value(major);
    chars::lemma_decimal_value(minor);
    lemma_digits_hold_no_dot(a);
    lemma_digits_hold_no_dot(b);
    chars::lemma_split_single(a, '.');
    chars::lemma_split_single(b, '.');
    if tail.len() == 0 {
        assert(v =~= a.push('.') + b);
        chars::lemma_split_append(a, '.', b);
        assert(chars::split(v, '.') =~= seq![a, b]);
    } else {
        let rest = tail.skip(1);
        let ab = a.push('.') + b;
        assert(v =~= ab.push('.') + rest);
        chars::lemma_split_append(ab, '.', rest);
        chars::lemma_split_append(a, '.', b);
        chars::lemma_split_nonempty(rest, '.');
        assert(chars::split(v, '.')[0] == a);
        assert(chars::split(v, '.')[1] == b);
    }
    assert(chars::is_digit(a[0]));
    assert(chars::is_digit(b[0]));
}

proof fn lemma_digits_hold_no_dot(s: Seq<char>)
    requires
        chars::all_digits(s),
    ensures
        !s.contains('.'),
{
    if s.contains('.') {
        let k = choose|k: int| 0 <= k < s.len() && s[k] == '.';
        assert(chars::is_digit(s[k]));
    }
}

/// A native build of a version `major.minor` or `major.minor.more` is published
/// on every platform that has any from 1.20 on, but on Linux with ARM from 1.26
/// on; and it is published for no earlier version.
pub proof fn native_builds_by_version(
    major: nat,
    minor: nat,
    tail: Seq<char>,
    os: Seq<char>,
    arch: Seq<char>,
)
    requires
        major <= u32::MAX,
        minor <= u32::MAX,
        tail.len() == 0 || tail[0] == '.',
    ensures
        native_build(os, arch) matches Some((asset, _)) ==> (native_published(
            chars::decimal(major).push('.') + chars::decimal(minor) + tail,
            asset,
        ) <==> major >= 2 || (major == 1 && minor >= (if os == "linux"@ && arch == "aarch64"@ {
            26int
        } else {
            20int
        }))),
{
    lemma_written_version(major, minor, tail);
    reveal_strlit("darwin-arm64");
    reveal_strlit("linux-x86-64");
    reveal_strlit("linux-arm64");
    reveal_strlit("windows-x86-64");
    reveal_strlit("macos");
    reveal_strlit("linux");
    reveal_strlit("windows");
    reveal_strlit("aarch64");
    reveal_strlit("x86_64");
    assert("macos"@[0] != "linux"@[0]);
    assert("aarch64"@.len() != "x86_64"@.len());
    assert("windows"@.len() != "linux"@.len());
    assert("linux-arm64"@.len() == 11);
    assert("darwin-arm64"@.len() == 12 && "linux-x86-64"@.len() == 12 && "windows-x86-64"@.len()
        == 14);
}

/// A version that is no number, a dot and a number has no native build.
pub proof fn other_versions_have_no_native_build(version: Seq<char>, asset: Seq<char>)
    ensures
        !version.contains('.') ==> !native_published(version, asset),
        version.len() > 0 && !chars::is_digit(version[0]) && version[0] != '+'
            ==> !native_published(version, asset),
{
    if !version.contains('.') {
        chars::lemma_split_single(version, '.');
    } else if version.len() > 0 && !chars::is_digit(version[0]) && version[0] != '+' {
        let parts = chars::split(version, '.');
        chars::lemma_split_nonempty(version, '.');
        chars::lemma_split_nonempty(version.skip(1), '.');
        if version[0] == '.' {
            assert(parts[0].len() == 0);
        } else {
            assert(parts[0][0] == version[0]);
        }
        if chars::all_digits(parts[0]) && parts[0].len() > 0 {
            assert(chars::is_digit(parts[0][0]));
        }
    }
}

/// The files of the cache are named after the tool and the version: the jars
/// `ktfmt-<version>.jar`, `gjf-<version>.jar` and `detekt-<version>.jar`, and the
/// native build `gjf-<version>-<asset>` with what its platform ends names with.
pub proof fn stored_files_are_named_by_version(
    cache: Cache,
    version: Seq<char>,
    asset: NativeAsset,
)
    requires
        begins_with_digit(version),
        !version.contains('/'),
        !asset.asset@.contains('/'),
        !asset.exe_suffix@.contains('/'),
    ensures
        fspath::base_name(cache.ktfmt_file(version)) == Some("ktfmt-"@ + version + ".jar"@),
        fspath::base_name(cache.gjf_jar_file(version)) == Some("gjf-"@ + version + ".jar"@),
        fspath::base_name(cache.detekt_file(version)) == Some("detekt-"@ + version + ".jar"@),
        fspath::base_name(cache.gjf_native_file(version, asset)) == Some(
            "gjf-"@ + version + "-"@ + asset.asset@ + asset.exe_suffix@,
        ),
        chars::starts_with(cache.ktfmt_file(version), cache.root@),
        chars::starts_with(cache.gjf_jar_file(version), cache.root@),
        chars::starts_with(cache.detekt_file(version), cache.root@),
        chars::starts_with(cache.gjf_native_file(version, asset), cache.root@),
{
    reveal_strlit("ktfmt-");
    reveal_strlit("gjf-");
    reveal_strlit("detekt-");
    reveal_strlit(".jar");
    reveal_strlit("-");
    assert(!"ktfmt-"@.contains('/') && !"gjf-"@.contains('/') && !"detekt-"@.contains('/'));
    assert(!".jar"@.contains('/'));
    lemma_artifact_name(cache.root@, "ktfmt-"@, version, ".jar"@);
    lemma_artifact_name(cache.root@, "gjf-"@, version, ".jar"@);
    lemma_artifact_name(cache.root@, "detekt-"@, version, ".jar"@);
    let end = "-"@ + asset.asset@ + asset.exe_suffix@;
    if end.contains('/') {
        let k = choose|k: int| 0 <= k < end.len() && end[k] == '/';
        let n = asset.asset@.len();
        if k > 0 && k <= n {
            assert(asset.asset@[k - 1] == '/');
        } else if k > n {
            assert(asset.exe_suffix@[k - 1 - n] == '/');
        }
    }
    lemma_artifact_name(cache.root@, "gjf-"@, version, end);
    assert("gjf-"@ + version + "-"@ + asset.asset@ + asset.exe_suffix@ =~= "gjf-"@ + version + end);
    lemma_joined_below(cache.root@, "ktfmt-"@ + version + ".jar"@);
    lemma_joined_below(cache.root@, "gjf-"@ + version + ".jar"@);
    lemma_joined_below(cache.root@, "detekt-"@ + version + ".jar"@);
    lemma_joined_below(cache.root@, "gjf-"@ + version + end);
}

proof fn lemma_joined_below(dir: Seq<char>, name: Seq<char>)
    requires
        !fspath::rooted(name),
    ensures
        chars::starts_with(fspath::joined(dir, name), dir),
{
    assert(fspath::joined(dir, name).take(dir.len() as int) =~= dir);
}

/// Formatters are downloaded from where their projects publish them.
pub proof fn formatters_come_from_their_projects()
    ensures
        KTFMT_URL@
            == "https://repo1.maven.org/maven2/com/facebook/ktfmt/{v}/ktfmt-{v}-with-dependencies.jar"@,
        GJF_URL@
            == "https://github.com/google/google-java-format/releases/download/v{v}/google-java-format-{v}-all-deps.jar"@,
        GJF_NATIVE_URL@
            == "https://github.com/google/google-java-format/releases/download/v{v}/google-java-format_{asset}{ext}"@,
        DETEKT_URL@
            == "https://github.com/detekt/detekt/releases/download/v{v}/detekt-cli-{v}-all.jar"@,
{
}

/// Behind the name of its tool and a hyphen, an artifact goes on with a digit,
/// and ends like a jar, or for google-java-format like a native build; a name
/// that begins otherwise is none of an artifact.
pub proof fn artifact_names(rest: Seq<char>, name: Seq<char>)
    ensures
        is_artifact_name("ktfmt-"@ + rest) <==> rest.len() > 0 && '0' <= rest[0] <= '9'
            && chars::ends_with(rest, ".jar"@),
        is_artifact_name("detekt-"@ + rest) <==> rest.len() > 0 && '0' <= rest[0] <= '9'
            && chars::ends_with(rest, ".jar"@),
        is_artifact_name("gjf-"@ + rest) <==> rest.len() > 0 && '0' <= rest[0] <= '9' && {
            ||| chars::ends_with(rest, ".jar"@)
            ||| chars::ends_with(rest, ".exe"@)
            ||| chars::ends_with(rest, "-darwin-arm64"@)
            ||| chars::ends_with(rest, "-linux-x86-64"@)
            ||| chars::ends_with(rest, "-linux-arm64"@)
        },
        is_artifact_name(name) ==> {
            ||| chars::starts_with(name, "ktfmt-"@)
            ||| chars::starts_with(name, "detekt-"@)
            ||| chars::starts_with(name, "gjf-"@)
        },
{
    reveal_strlit("ktfmt-");
    reveal_strlit("detekt-");
    reveal_strlit("gjf-");
    let k = "ktfmt-"@ + rest;
    let d = "detekt-"@ + rest;
    let g = "gjf-"@ + rest;
    assert(k.take(6) =~= "ktfmt-"@ && k.skip(6) =~= rest);
    assert(d.take(7) =~= "detekt-"@ && d.skip(7) =~= rest);
    assert(g.take(4) =~= "gjf-"@ && g.skip(4) =~= rest);
    if chars::starts_with(d, "ktfmt-"@) {
        assert(d.take(6)[0] == 'k');
    }
    lemma_gjf_name(g);
}

/// Of the entries of the cache directory, neither directories nor hidden files
/// are listed, nor files of other names; all other files are, each as often as
/// it occurs.
pub proof fn only_artifacts_are_listed(listing: Seq<DirectoryEntry>, e: DirectoryEntry)
    ensures
        !e.is_file ==> !is_managed(e),
        fspath::base_name(e.path@) matches Some(name) && name.len() > 0 && name[0] == '.'
            ==> !is_managed(e),
        e.is_file && (fspath::base_name(e.path@) matches Some(name) && name.len() > 0 && name[0]
            != '.' && is_artifact_name(name)) ==> is_managed(e),
        is_managed(e) ==> (fspath::base_name(e.path@) matches Some(name) && is_artifact_name(name)),
        managed(listing).len() == listing.filter(|x: DirectoryEntry| is_managed(x)).len(),
    decreases listing.len(),
{
    reveal(Seq::filter);
    if listing.len() > 0 {
        only_artifacts_are_listed(listing.drop_last(), e);
        listing_is_sorted_and_complete(listing.drop_last());
        if is_managed(listing.last()) {
            lemma_entry_inserted(
                managed(listing.drop_last()),
                (listing.last().path@, listing.last().size),
            );
        }
    }
}

/// What is pruned are the paths of the entries that are not to be kept, in
/// order.
pub proof fn pruning_keeps_the_order(entries: Seq<(Seq<char>, u64)>, keep: Seq<Seq<char>>)
    ensures
        unkept(entries, keep) == entries.map_values(|e: (Seq<char>, u64)| e.0).filter(
            |p: Seq<char>| !fspath::holds_path(keep, p),
        ),
    decreases entries.len(),
{
    reveal(Seq::filter);
    let paths = entries.map_values(|e: (Seq<char>, u64)| e.0);
    if entries.len() > 0 {
        pruning_keeps_the_order(entries.drop_last(), keep);
        assert(paths.drop_last() =~= entries.drop_last().map_values(|e: (Seq<char>, u64)| e.0));
    }
}

/// A download that fails is an error, and the one that the downloader gave for
/// this file; one that goes well gives the path of the file.
pub proof fn failed_downloads_are_errors<D: Downloader>(
    downloader: &D,
    url: Seq<char>,
    dest: Seq<char>,
    r: Result<String, DownloadError>,
)
    requires
        fetched(downloader, url, dest, false, r),
    ensures
        r matches Err(e) ==> exists|u: &str, d: &str, got: Result<(), DownloadError>|
            u@ == url && d@ == dest && #[trigger] call_ensures(D::download, (downloader, u, d), got)
                && got == Err::<(), DownloadError>(e),
        (forall|u: &str, d: &str, got: Result<(), DownloadError>|
            u@ == url && d@ == dest && #[trigger] call_ensures(D::download, (downloader, u, d), got)
                ==> got is Err) ==> r is Err,
        r matches Ok(p) ==> p@ == dest,
        r is Ok ==> exists|u: &str, d: &str, got: Result<(), DownloadError>|
            u@ == url && d@ == dest && #[trigger] call_ensures(D::download, (downloader, u, d), got)
                && got is Ok,
{
    assert(is_downloaded(downloader, url, dest, r));
    let (u, d, got) = choose|u: &str, d: &str, got: Result<(), DownloadError>|
        u@ == url && d@ == dest && #[trigger] call_ensures(D::download, (downloader, u, d), got)
            && match got {
            Ok(_) => r matches Ok(p) && p@ == dest,
            Err(e) => r == Err::<String, _>(e),
        };
    assert(call_ensures(D::download, (downloader, u, d), got));
}

} // verus!
