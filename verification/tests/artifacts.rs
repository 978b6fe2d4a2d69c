//! Getting hold of the formatters.

use kempt::artifacts::{
    artifact_paths, ensure_gjf_artifact, keep_paths_for_config, plan_vendor, resolve_gjf_invoker,
    resolve_ktfmt_invoker, run_update, run_vendor, ArtifactError, VendorOutcome,
};
use kempt::cache::{native_asset_for, Cache, CacheEntry, DownloadError, Downloader, NativeAsset};
use kempt::config::{Config, Detekt, Gjf, Ktfmt, NativeMode, VersionSpec};
use kempt::formatters::Invoker;
use std::cell::RefCell;

struct FakeDownloader {
    calls: RefCell<Vec<(String, String)>>,
}

impl FakeDownloader {
    fn new() -> Self {
        FakeDownloader { calls: RefCell::new(vec![]) }
    }

    fn files(&self) -> Vec<String> {
        self.calls.borrow().iter().map(|c| c.1.clone()).collect()
    }
}

impl Downloader for FakeDownloader {
    fn download(&self, url: &str, dest: &str) -> Result<(), DownloadError> {
        if url.contains("9.9.9") {
            return Err(DownloadError { message: "no such release".into() });
        }
        self.calls.borrow_mut().push((url.to_string(), dest.to_string()));
        Ok(())
    }
}

fn host() -> Option<NativeAsset> {
    native_asset_for("linux", "x86_64")
}

fn literal(v: &str) -> Option<VersionSpec> {
    Some(VersionSpec::Literal(v.to_string()))
}

fn ktfmt(version: Option<&str>, path: Option<&str>) -> Ktfmt {
    Ktfmt {
        version: version.and_then(literal),
        path: path.map(|p| p.to_string()),
        style: Default::default(),
        license_header: None,
        paths: None,
    }
}

fn gjf(version: Option<&str>, path: Option<&str>, native: NativeMode) -> Gjf {
    Gjf {
        version: version.and_then(literal),
        path: path.map(|p| p.to_string()),
        style: Default::default(),
        license_header: None,
        native,
        paths: None,
    }
}

fn cache() -> Cache {
    Cache::new("/cache".to_string())
}

#[test]
fn run_update_fetches_only_configured_tools() {
    let dl = FakeDownloader::new();
    let cfg = Config { ktfmt: Some(ktfmt(Some("0.56"), None)), ..Default::default() };
    run_update(&cfg, "/repo", &cache(), &dl, host(), &vec![]).unwrap();
    assert_eq!(dl.calls.borrow().len(), 1);
    assert_eq!(dl.files(), [cache().ktfmt_path("0.56")]);
    assert!(!dl.files().contains(&cache().gjf_jar_path("1.28.0")));
}

#[test]
fn fetched_files_are_spared_by_pruning() {
    for native in [NativeMode::Auto, NativeMode::Never] {
        let dl = FakeDownloader::new();
        let cfg = Config {
            ktfmt: Some(ktfmt(Some("0.56"), None)),
            gjf: Some(gjf(Some("1.28.0"), None, native)),
            ..Default::default()
        };
        run_update(&cfg, "/repo", &cache(), &dl, host(), &vec![]).unwrap();
        let entries: Vec<CacheEntry> =
            dl.files().into_iter().map(|path| CacheEntry { path, size: 1 }).collect();
        assert_eq!(entries.len(), 2);
        let keep = keep_paths_for_config(&cfg, "/repo", &cache(), host());
        assert!(cache().prune(&entries, &keep).is_empty());
        assert_eq!(cache().prune(&entries, &vec![]).len(), 2);
    }
}

fn detekt(version: Option<&str>, path: Option<&str>) -> Detekt {
    Detekt {
        version: version.and_then(literal),
        path: path.map(|p| p.to_string()),
        configs: vec![],
        config_resources: vec![],
        baseline: None,
        build_upon_default_config: false,
        plugins: vec![],
        reports: vec![],
        paths: None,
        classpath: None,
        jvm_target: None,
        args: vec![],
        targets: vec![],
    }
}

#[test]
fn detekt_is_spared_by_pruning() {
    let cfg = Config { detekt: Some(detekt(Some("1.23.8"), None)), ..Default::default() };
    let keep = keep_paths_for_config(&cfg, "/repo", &cache(), host());
    assert_eq!(keep, [cache().detekt_path("1.23.8")]);
    let entries: Vec<CacheEntry> = ["1.23.7", "1.23.8"]
        .iter()
        .map(|v| CacheEntry { path: cache().detekt_path(v), size: 1 })
        .collect();
    assert_eq!(cache().prune(&entries, &keep), [cache().detekt_path("1.23.7")]);
    let local = Config { detekt: Some(detekt(None, Some("bin/detekt"))), ..Default::default() };
    assert_eq!(artifact_paths(&local, "/repo", &cache(), host()), ["/repo/bin/detekt"]);
}

#[test]
fn tools_of_the_repository_use_no_cache() {
    let cfg = Config {
        ktfmt: Some(ktfmt(None, Some("bin/ktfmt.jar"))),
        gjf: Some(gjf(None, Some("bin/gjf"), NativeMode::Auto)),
        detekt: Some(detekt(None, Some("bin/detekt"))),
        ..Default::default()
    };
    assert!(keep_paths_for_config(&cfg, "/repo", &cache(), host()).is_empty());
}

#[test]
fn run_update_skips_tools_with_path() {
    let dl = FakeDownloader::new();
    let cfg =
        Config { ktfmt: Some(ktfmt(None, Some("config/bin/ktfmt.jar"))), ..Default::default() };
    assert_eq!(
        run_update(&cfg, "/repo", &cache(), &dl, host(), &vec![]).unwrap(),
        (None, None)
    );
    assert!(dl.calls.borrow().is_empty(), "must not download for in-repo jars");
}

#[test]
fn run_update_stops_at_the_first_failure() {
    let dl = FakeDownloader::new();
    let cfg = Config {
        ktfmt: Some(ktfmt(Some("9.9.9"), None)),
        gjf: Some(gjf(Some("1.28.0"), None, NativeMode::Never)),
        ..Default::default()
    };
    let err = run_update(&cfg, "/repo", &cache(), &dl, host(), &vec![]).unwrap_err();
    assert_eq!(err.message(), "no such release");
    assert!(dl.calls.borrow().is_empty());
}

#[test]
fn keep_paths_excludes_in_repo_jars() {
    let cfg = Config {
        ktfmt: Some(ktfmt(None, Some("config/bin/ktfmt.jar"))),
        gjf: Some(gjf(Some("1.28.0"), None, NativeMode::Never)),
        ..Default::default()
    };
    let keep = keep_paths_for_config(&cfg, "/repo", &cache(), host());
    // ktfmt's in-repo jar shouldn't appear; gjf's jar path should.
    assert_eq!(keep.len(), 1);
    assert!(keep[0].ends_with("gjf-1.28.0.jar"));
    assert_eq!(
        artifact_paths(&cfg, "/repo", &cache(), host()),
        ["/cache/gjf-1.28.0.jar", "/repo/config/bin/ktfmt.jar"]
    );
}

#[test]
fn keep_paths_includes_both_jar_and_native_when_native_auto() {
    let cfg = Config {
        gjf: Some(gjf(Some("1.28.0"), None, NativeMode::Auto)),
        ..Default::default()
    };
    let keep = keep_paths_for_config(&cfg, "/repo", &cache(), host());
    assert!(keep.iter().any(|p| p.ends_with("gjf-1.28.0.jar")));
    assert!(keep.len() == 2);
    assert_eq!(keep_paths_for_config(&cfg, "/repo", &cache(), None).len(), 1);
}

fn version_only_config() -> Config {
    Config {
        ktfmt: Some(ktfmt(Some("0.56"), None)),
        gjf: Some(gjf(Some("1.28.0"), None, NativeMode::Never)),
        ..Default::default()
    }
}

fn vendor(cfg: &Config, dl: &FakeDownloader, dir: &str) -> VendorOutcome {
    run_vendor(cfg, "/repo", &cache(), dl, host(), &dl.files(), dir).unwrap()
}

#[test]
fn run_vendor_copies_jars_into_target_dir() {
    let dl = FakeDownloader::new();
    let outcome = vendor(&version_only_config(), &dl, "config/bin");
    assert_eq!(outcome.entries.len(), 2);
    assert!(outcome.skipped.is_empty());
    assert_eq!(outcome.entries[0].dest, "/repo/config/bin/ktfmt-0.56.jar");
    assert_eq!(outcome.entries[1].dest, "/repo/config/bin/gjf-1.28.0.jar");
    // What is copied is what was fetched.
    assert_eq!(outcome.entries[0].source, dl.files()[0]);
    assert_eq!(outcome.entries[1].source, dl.files()[1]);
}

#[test]
fn run_vendor_creates_target_dir() {
    let dl = FakeDownloader::new();
    let outcome = vendor(&version_only_config(), &dl, "vendor/jars");
    assert!(outcome.entries.iter().all(|e| e.dest.starts_with("/repo/vendor/jars/")));
}

#[test]
fn run_vendor_skips_tools_already_using_path() {
    let dl = FakeDownloader::new();
    let cfg = Config {
        ktfmt: Some(ktfmt(None, Some("config/bin/ktfmt.jar"))),
        gjf: Some(gjf(Some("1.28.0"), None, NativeMode::Auto)),
        ..Default::default()
    };
    let outcome = vendor(&cfg, &dl, "config/bin");
    assert_eq!(outcome.entries.len(), 1);
    assert_eq!(outcome.entries[0].tool, "gjf");
    assert_eq!(outcome.skipped, vec!["ktfmt"]);
}

#[test]
fn run_vendor_config_value_uses_relative_target_for_relative_dir() {
    let dl = FakeDownloader::new();
    let outcome = vendor(&version_only_config(), &dl, "config/bin");
    let kt = outcome.entries.iter().find(|e| e.tool == "ktfmt").unwrap();
    assert_eq!(kt.config_value, "config/bin/ktfmt-0.56.jar");
    let outcome = vendor(&version_only_config(), &dl, "/opt/bin");
    assert_eq!(outcome.entries[0].config_value, "/opt/bin/ktfmt-0.56.jar");
}

#[test]
fn run_vendor_is_idempotent() {
    let dl = FakeDownloader::new();
    let first = vendor(&version_only_config(), &dl, "config/bin");
    let outcome = vendor(&version_only_config(), &dl, "config/bin");
    assert_eq!(outcome.entries.len(), 2);
    assert_eq!(outcome, first);
    assert_eq!(dl.calls.borrow().len(), 2);
}

#[test]
fn run_vendor_with_no_configured_tools_returns_empty() {
    let dl = FakeDownloader::new();
    let outcome = vendor(&Config::default(), &dl, "config/bin");
    assert!(outcome.entries.is_empty());
    assert!(outcome.skipped.is_empty());
}

#[test]
fn run_vendor_with_native_gjf_copies_native_binary() {
    let dl = FakeDownloader::new();
    let cfg = Config {
        gjf: Some(gjf(Some("1.28.0"), None, NativeMode::Always)),
        ..Default::default()
    };
    let outcome = vendor(&cfg, &dl, "config/bin");
    assert_eq!(outcome.entries.len(), 1);
    let dest = &outcome.entries[0].dest;
    // Native filename: gjf-<v>-<asset>[.exe], no .jar extension.
    assert!(
        dest.contains("gjf-1.28.0-") && !dest.ends_with(".jar"),
        "expected native filename, got {dest}"
    );
}

#[test]
fn native_builds_are_fetched_where_wanted() {
    let dl = FakeDownloader::new();
    let fetch = |v: &str, native, host| {
        ensure_gjf_artifact(v, native, &cache(), &dl, host, &vec![])
    };
    assert_eq!(
        fetch("1.28.0", NativeMode::Auto, host()).unwrap(),
        Invoker::Native("/cache/gjf-1.28.0-linux-x86-64".into())
    );
    assert_eq!(
        fetch("1.28.0", NativeMode::Auto, None).unwrap(),
        Invoker::Jar("/cache/gjf-1.28.0.jar".into())
    );
    let err = fetch("1.19.0", NativeMode::Always, host()).unwrap_err();
    assert!(matches!(err, ArtifactError::NoNative(_)));
    assert!(err.message().contains("not available"));
}

#[test]
fn local_formatters_must_exist() {
    let dl = FakeDownloader::new();
    let disk: Vec<String> = vec!["/repo/bin/k.jar".into(), "/repo/bin/g".into(), "/x/g.jar".into()];
    let kt = |p: &str| resolve_ktfmt_invoker(&ktfmt(None, Some(p)), "/repo", &cache(), &dl, &disk);
    assert_eq!(kt("bin/k.jar").unwrap(), Invoker::Jar("/repo/bin/k.jar".into()));
    assert_eq!(kt("k.jar").unwrap_err().message(), "jar not found: /repo/k.jar");
    let g = |p: &str| {
        let settings = gjf(None, Some(p), NativeMode::Auto);
        resolve_gjf_invoker(&settings, "/repo", &cache(), &dl, host(), &disk)
    };
    assert_eq!(g("bin/g").unwrap(), Invoker::Native("/repo/bin/g".into()));
    assert_eq!(g("/x/g.jar").unwrap(), Invoker::Jar("/x/g.jar".into()));
    assert_eq!(g("g").unwrap_err().message(), "gjf binary not found: /repo/g");
    assert!(dl.calls.borrow().is_empty());
}

#[test]
fn nameless_artifacts_are_errors() {
    let jar = |p: &str| Some(Invoker::Jar(p.into()));
    let err = plan_vendor(&version_only_config(), "/repo", "bin", jar("/"), jar("..")).unwrap_err();
    assert_eq!(err.message(), "cache artifact has no file name: /");
    let err = plan_vendor(&version_only_config(), "/repo", "bin", jar("/k"), jar("..")).unwrap_err();
    assert_eq!(err.message(), "cache artifact has no file name: ..");
}
