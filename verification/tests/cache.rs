//! The cache of formatters.

use kempt::cache::{
    is_kempt_artifact_name, native_asset_for, native_supported_for_version, resolve_gjf_flavor, wanted,
    Cache, CacheEntry,
    DirectoryEntry, DownloadError, Downloader, GjfFlavor, NativeAsset, UreqDownloader,
};
use std::cell::RefCell;

/// Keeps what it is asked for in a list of files.
struct FakeDownloader {
    size: u64,
    calls: RefCell<Vec<(String, String)>>,
}

impl FakeDownloader {
    fn new(payload: &[u8]) -> Self {
        FakeDownloader { size: payload.len() as u64, calls: RefCell::new(vec![]) }
    }

    fn has(&self, path: &str) -> bool {
        self.calls.borrow().iter().any(|c| c.1 == path)
    }

    fn listing(&self) -> Vec<DirectoryEntry> {
        self.calls
            .borrow()
            .iter()
            .map(|c| DirectoryEntry { path: c.1.clone(), is_file: true, size: self.size })
            .collect()
    }
}

impl Downloader for FakeDownloader {
    fn download(&self, url: &str, dest: &str) -> Result<(), DownloadError> {
        self.calls.borrow_mut().push((url.to_string(), dest.to_string()));
        Ok(())
    }
}

struct NoNetwork;

impl Downloader for NoNetwork {
    fn download(&self, url: &str, _dest: &str) -> Result<(), DownloadError> {
        Err(UreqDownloader.request_failure(url, "no route"))
    }
}

fn ensure_ktfmt(cache: &Cache, version: &str, dl: &FakeDownloader) -> String {
    let present = dl.has(&cache.ktfmt_path(version));
    cache.ensure_ktfmt(version, present, dl).unwrap()
}

fn ensure_gjf_jar(cache: &Cache, version: &str, dl: &FakeDownloader) -> String {
    let present = dl.has(&cache.gjf_jar_path(version));
    cache.ensure_gjf_jar(version, present, dl).unwrap()
}

fn ensure_detekt(cache: &Cache, version: &str, dl: &FakeDownloader) -> String {
    let present = dl.has(&cache.detekt_path(version));
    cache.ensure_detekt(version, present, dl).unwrap()
}

fn file(cache: &Cache, name: &str) -> DirectoryEntry {
    DirectoryEntry { path: format!("{}/{name}", cache.root()), is_file: true, size: 1 }
}

#[test]
fn paths_are_version_suffixed() {
    let c = Cache::new("/c".to_string());
    assert_eq!(c.ktfmt_path("0.56"), "/c/ktfmt-0.56.jar");
    assert_eq!(c.gjf_jar_path("1.28.0"), "/c/gjf-1.28.0.jar");
    assert_eq!(c.detekt_path("2.0.0-alpha.5"), "/c/detekt-2.0.0-alpha.5.jar");
}

#[test]
fn ensure_ktfmt_downloads_when_missing() {
    let cache = Cache::new("/c".to_string());
    let dl = FakeDownloader::new(b"jarbytes");
    let path = ensure_ktfmt(&cache, "0.56", &dl);
    assert!(dl.has(&path));
    let calls = dl.calls.borrow();
    assert_eq!(calls.len(), 1);
    assert!(calls[0].0.contains("0.56"));
    assert!(calls[0].0.contains("ktfmt"));
    assert_eq!(
        calls[0].0,
        "https://repo1.maven.org/maven2/com/facebook/ktfmt/0.56/ktfmt-0.56-with-dependencies.jar"
    );
}

#[test]
fn ensure_ktfmt_is_idempotent() {
    let cache = Cache::new("/c".to_string());
    let dl = FakeDownloader::new(b"x");
    ensure_ktfmt(&cache, "0.56", &dl);
    ensure_ktfmt(&cache, "0.56", &dl);
    ensure_ktfmt(&cache, "0.56", &dl);
    assert_eq!(dl.calls.borrow().len(), 1, "should only download once");
}

#[test]
fn ensure_gjf_jar_uses_correct_url() {
    let cache = Cache::new("/c".to_string());
    let dl = FakeDownloader::new(b"x");
    ensure_gjf_jar(&cache, "1.28.0", &dl);
    let calls = dl.calls.borrow();
    assert!(calls[0].0.contains("v1.28.0"));
    assert!(calls[0].0.contains("google-java-format-1.28.0-all-deps.jar"));
}

#[test]
fn ensure_detekt_uses_release_fat_jar() {
    let cache = Cache::new("/c".to_string());
    let dl = FakeDownloader::new(b"x");
    ensure_detekt(&cache, "2.0.0-alpha.5", &dl);
    let calls = dl.calls.borrow();
    assert!(calls[0].0.contains("/v2.0.0-alpha.5/"));
    assert!(calls[0].0.ends_with("detekt-cli-2.0.0-alpha.5-all.jar"));
}

#[test]
fn ensure_gjf_native_uses_correct_url_and_chmods() {
    let cache = Cache::new("/c".to_string());
    let dl = FakeDownloader::new(b"native-bytes");
    let asset = NativeAsset { asset: "darwin-arm64", exe_suffix: "" };
    let path = cache.ensure_gjf_native("1.28.0", &asset, false, &dl).unwrap();
    let calls = dl.calls.borrow();
    assert!(calls[0].0.contains("google-java-format_darwin-arm64"));
    assert!(path.ends_with("gjf-1.28.0-darwin-arm64"));
}

#[test]
fn ensure_gjf_native_windows_includes_exe_suffix() {
    let cache = Cache::new("/c".to_string());
    let dl = FakeDownloader::new(b"x");
    let asset = NativeAsset { asset: "windows-x86-64", exe_suffix: ".exe" };
    let path = cache.ensure_gjf_native("1.28.0", &asset, false, &dl).unwrap();
    assert!(path.ends_with("gjf-1.28.0-windows-x86-64.exe"));
    let calls = dl.calls.borrow();
    assert!(calls[0].0.ends_with("google-java-format_windows-x86-64.exe"));
}

#[test]
fn native_supported_for_version_uses_correct_cutoffs() {
    let darwin = NativeAsset { asset: "darwin-arm64", exe_suffix: "" };
    let linux_arm = NativeAsset { asset: "linux-arm64", exe_suffix: "" };
    // Pre-1.20: nothing.
    assert!(!native_supported_for_version("1.19.0", &darwin));
    // 1.20+: most platforms.
    assert!(native_supported_for_version("1.20.0", &darwin));
    assert!(native_supported_for_version("1.28.0", &darwin));
    // linux-arm64 only from 1.26.
    assert!(!native_supported_for_version("1.22.0", &linux_arm));
    assert!(native_supported_for_version("1.26.0", &linux_arm));
}

#[test]
fn native_supported_handles_malformed_versions() {
    let asset = NativeAsset { asset: "darwin-arm64", exe_suffix: "" };
    assert!(!native_supported_for_version("garbage", &asset));
    assert!(!native_supported_for_version("1", &asset));
}

#[test]
fn native_support_goes_by_the_first_two_numbers() {
    let asset = NativeAsset { asset: "darwin-arm64", exe_suffix: "" };
    assert!(native_supported_for_version("2.0", &asset));
    assert!(!native_supported_for_version("0.99.0", &asset));
    assert!(!native_supported_for_version("1.", &asset));
    assert!(native_supported_for_version("1.20", &asset));
    assert!(!native_supported_for_version("1.99999999999", &asset));
}

#[test]
fn resolve_gjf_flavor_returns_jar_when_native_disabled() {
    let host = native_asset_for("macos", "aarch64");
    let flavor = resolve_gjf_flavor("1.28.0", false, false, host).unwrap();
    assert_eq!(flavor, GjfFlavor::Jar);
}

#[test]
fn resolve_gjf_flavor_falls_back_to_jar_for_old_version() {
    // Pre-1.20: even with prefer_native, falls back.
    let host = native_asset_for("macos", "aarch64");
    let flavor = resolve_gjf_flavor("1.19.0", true, false, host).unwrap();
    assert_eq!(flavor, GjfFlavor::Jar);
}

#[test]
fn resolve_gjf_flavor_require_errors_when_unavailable() {
    // Force a version with no native build; require_native should error.
    let host = native_asset_for("macos", "aarch64");
    let err = resolve_gjf_flavor("1.19.0", true, true, host).unwrap_err();
    assert!(err.message().contains("not available"));
}

#[test]
fn resolve_gjf_flavor_gives_the_native_build_where_there_is_one() {
    let host = native_asset_for("linux", "x86_64");
    assert_eq!(
        resolve_gjf_flavor("1.28.0", true, false, host).unwrap(),
        GjfFlavor::Native(host.unwrap())
    );
    assert_eq!(resolve_gjf_flavor("1.28.0", true, false, None).unwrap(), GjfFlavor::Jar);
    assert!(resolve_gjf_flavor("1.28.0", true, true, None).is_err());
}

#[test]
fn native_builds_are_published_for_four_platforms() {
    let name = |os: &str, arch: &str| native_asset_for(os, arch).map(|a| (a.asset, a.exe_suffix));
    assert_eq!(name("macos", "aarch64"), Some(("darwin-arm64", "")));
    assert_eq!(name("linux", "x86_64"), Some(("linux-x86-64", "")));
    assert_eq!(name("linux", "aarch64"), Some(("linux-arm64", "")));
    assert_eq!(name("windows", "x86_64"), Some(("windows-x86-64", ".exe")));
    assert_eq!(name("freebsd", "x86_64"), None);
}

#[test]
fn ensure_creates_cache_dir() {
    // The file is asked for below the directory, wherever that is.
    let cache = Cache::new("/tmp/x/a/b/c".to_string());
    let dl = FakeDownloader::new(b"x");
    ensure_ktfmt(&cache, "0.56", &dl);
    assert!(dl.calls.borrow()[0].1.starts_with("/tmp/x/a/b/c/"));
}

#[test]
fn different_versions_are_cached_separately() {
    let cache = Cache::new("/c".to_string());
    let dl = FakeDownloader::new(b"x");
    let a = ensure_ktfmt(&cache, "0.56", &dl);
    let b = ensure_ktfmt(&cache, "0.57", &dl);
    assert_ne!(a, b);
    assert!(dl.has(&a) && dl.has(&b));
    assert_eq!(dl.calls.borrow().len(), 2);
}

#[test]
fn list_entries_returns_empty_when_cache_dir_absent() {
    let cache = Cache::new("/does-not-exist".to_string());
    assert!(cache.list_entries(&vec![]).is_empty());
}

#[test]
fn list_entries_returns_artifacts_with_sizes() {
    let cache = Cache::new("/c".to_string());
    let dl = FakeDownloader::new(b"abcdef");
    ensure_ktfmt(&cache, "0.56", &dl);
    ensure_gjf_jar(&cache, "1.28.0", &dl);
    ensure_detekt(&cache, "1.23.8", &dl);
    let entries = cache.list_entries(&dl.listing());
    assert_eq!(entries.len(), 3);
    for e in &entries {
        assert_eq!(e.size, 6);
    }
}

#[test]
fn list_entries_ignores_unrelated_files() {
    let cache = Cache::new("/c".to_string());
    let listing = vec![
        file(&cache, "notes.txt"),
        file(&cache, "notes.jar"),
        file(&cache, "gjf-notes.txt"),
        file(&cache, "ktfmt-notes.txt"),
        file(&cache, ".hidden.tmp"),
        file(&cache, "ktfmt-0.56.jar"),
    ];
    let entries = cache.list_entries(&listing);
    assert_eq!(entries.len(), 1);
    assert!(entries[0].path.ends_with("ktfmt-0.56.jar"));
}

#[test]
fn list_entries_includes_native_gjf_binary() {
    let cache = Cache::new("/c".to_string());
    let listing = vec![file(&cache, "gjf-1.28.0-darwin-arm64"), file(&cache, "gjf-1.28.0.jar")];
    let entries = cache.list_entries(&listing);
    assert_eq!(entries.len(), 2);
}

#[test]
fn list_entries_leaves_directories_out_and_sorts() {
    let cache = Cache::new("/c".to_string());
    let mut listing = vec![file(&cache, "ktfmt-0.9.jar"), file(&cache, "gjf-1.0.jar")];
    listing.push(DirectoryEntry { path: "/c/ktfmt-1.0.jar".into(), is_file: false, size: 0 });
    let entries = cache.list_entries(&listing);
    assert_eq!(
        entries,
        vec![
            CacheEntry { path: "/c/gjf-1.0.jar".into(), size: 1 },
            CacheEntry { path: "/c/ktfmt-0.9.jar".into(), size: 1 },
        ]
    );
}

#[test]
fn prune_removes_only_unkept_jars() {
    let cache = Cache::new("/c".to_string());
    let dl = FakeDownloader::new(b"x");
    ensure_ktfmt(&cache, "0.55", &dl);
    ensure_ktfmt(&cache, "0.56", &dl);
    ensure_gjf_jar(&cache, "1.28.0", &dl);

    let keep = vec![cache.ktfmt_path("0.56"), cache.gjf_jar_path("1.28.0")];
    let removed = cache.prune(&cache.list_entries(&dl.listing()), &keep);

    assert_eq!(removed.len(), 1);
    assert!(removed[0].ends_with("ktfmt-0.55.jar"));
}

#[test]
fn prune_with_empty_keep_removes_everything() {
    let cache = Cache::new("/c".to_string());
    let dl = FakeDownloader::new(b"x");
    ensure_ktfmt(&cache, "0.56", &dl);
    ensure_gjf_jar(&cache, "1.28.0", &dl);
    let removed = cache.prune(&cache.list_entries(&dl.listing()), &vec![]);
    assert_eq!(removed.len(), 2);
}

#[test]
fn prune_on_empty_cache_is_noop() {
    let cache = Cache::new("/absent".to_string());
    assert!(cache.prune(&cache.list_entries(&vec![]), &vec![]).is_empty());
}

#[test]
fn failed_downloads_are_reported() {
    let cache = Cache::new("/c".to_string());
    let err = cache.ensure_ktfmt("0.56", false, &NoNetwork).unwrap_err();
    assert!(err.message.contains("ktfmt-0.56-with-dependencies.jar"));
    assert!(err.message.contains("no route"));
    assert_eq!(cache.ensure_ktfmt("0.56", true, &NoNetwork).unwrap(), "/c/ktfmt-0.56.jar");
}

#[test]
fn default_root_prefers_the_custom_directory() {
    let s = |t: &str| Some(t.to_string());
    assert_eq!(Cache::default_root(s("/x"), s("/home/me")), s("/x"));
    assert_eq!(Cache::default_root(None, s("/home/me")), s("/home/me/.kempt/cache"));
    assert_eq!(Cache::default_root(None, None), None);
}

#[test]
fn downloads_go_to_a_temporary_file_first() {
    assert_eq!(UreqDownloader.temporary_name("/c/ktfmt-1.jar"), ".ktfmt-1.jar.tmp");
}

#[test]
fn only_missing_files_are_wanted() {
    let d = wanted(false, "https://host/a.jar".into(), "/c/a.jar".into()).unwrap();
    assert_eq!((d.url.as_str(), d.dest.as_str()), ("https://host/a.jar", "/c/a.jar"));
    assert!(wanted(true, "https://host/a.jar".into(), "/c/a.jar".into()).is_none());
}

#[test]
fn stored_files_are_recognized() {
    let c = Cache::new("/c".to_string());
    let mut stored = vec![c.ktfmt_path("0.56"), c.gjf_jar_path("1.28.0"), c.detekt_path("2.0.0-a.5")];
    for (os, arch) in [
        ("macos", "aarch64"),
        ("linux", "x86_64"),
        ("linux", "aarch64"),
        ("windows", "x86_64"),
    ] {
        stored.push(c.gjf_native_path("1.28.0", &native_asset_for(os, arch).unwrap()));
    }
    for path in stored {
        assert!(is_kempt_artifact_name(path.strip_prefix("/c/").unwrap()), "{path}");
    }
    for name in ["notes.jar", "gjf-notes.txt", "ktfmt-notes.txt", "detekt-x.jar"] {
        assert!(!is_kempt_artifact_name(name), "{name}");
    }
}
