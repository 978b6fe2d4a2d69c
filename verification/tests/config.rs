//! The configuration.

use kempt::catalog::{pick_version, CatalogFault, TomlKind};
use kempt::config::{
    validate_detekt_args, Config, ConfigError, Detekt, DetektTarget, Gjf, GjfStyle, GlobList, Hook,
    HookMode, Ktfmt, KtfmtStyle, LicenseHeader, NativeMode, PathList, Paths, Rustfmt,
    ToolLicenseHeader, ToolPaths, ToolSource, VersionRef, VersionSpec, Whitespace,
};
use kempt::references::list_text_files;
use kempt::snapshot::{FileState, FileTexts};

fn list(items: &[&str]) -> Vec<String> {
    items.iter().map(|s| s.to_string()).collect()
}

fn literal(v: &str) -> Option<VersionSpec> {
    Some(VersionSpec::Literal(v.to_string()))
}

fn reference(file: &str, key: Option<&str>) -> Option<VersionSpec> {
    Some(VersionSpec::Ref(VersionRef { file: file.into(), key: key.map(|k| k.to_string()) }))
}

fn ktfmt(version: Option<VersionSpec>, path: Option<&str>) -> Ktfmt {
    Ktfmt {
        version,
        path: path.map(|p| p.to_string()),
        style: KtfmtStyle::default(),
        license_header: None,
        paths: None,
    }
}

fn gjf(version: Option<VersionSpec>, path: Option<&str>) -> Gjf {
    Gjf {
        version,
        path: path.map(|p| p.to_string()),
        style: GjfStyle::default(),
        license_header: None,
        native: NativeMode::default(),
        paths: None,
    }
}

fn detekt(version: Option<VersionSpec>) -> Detekt {
    Detekt {
        version,
        path: None,
        configs: vec![],
        config_resources: vec![],
        baseline: None,
        build_upon_default_config: false,
        plugins: vec![],
        reports: vec![],
        paths: None,
        classpath: None,
        jvm_target: None,
        args: vec![],
        targets: vec![],
    }
}

fn header(file: Option<&str>, excludes: Option<&str>) -> Option<ToolLicenseHeader> {
    Some(ToolLicenseHeader {
        file: file.map(|s| s.to_string()),
        excludes: excludes.map(|s| s.to_string()),
    })
}

fn global(file: &str) -> Option<LicenseHeader> {
    Some(LicenseHeader { file: file.to_string() })
}

fn files(items: &[(&str, &str)]) -> FileTexts {
    let mut t = FileTexts::new();
    for (path, text) in items {
        t.note(path.to_string(), FileState::Text(text.to_string()));
    }
    t
}

#[test]
fn empty_config_yields_defaults() {
    let c = Config::default();
    assert!(c.ktfmt.is_none());
    assert!(c.gjf.is_none());
    assert!(c.rustfmt.is_none());
    assert!(c.license_header.is_none());
    assert!(c.whitespace.strip_trailing);
    assert!(c.whitespace.final_newline);
    assert_eq!(c.hook.mode, HookMode::Format);
    // Default global exclude is built-in (build/, target/).
    match &c.paths.exclude {
        GlobList::Inline(v) => {
            assert!(v.contains(&"**/build/**".to_string()));
            assert!(v.contains(&"**/target/**".to_string()));
        }
        GlobList::FromFile(_) => panic!("expected inline list by default"),
    }
    assert!(c.validate().is_ok());
}

#[test]
fn ktfmt_section_default_style_is_google() {
    let kt = ktfmt(literal("0.56"), None);
    assert_eq!(kt.version.as_ref().unwrap().as_literal(), "0.56");
    assert!(kt.path.is_none());
    assert_eq!(kt.style, KtfmtStyle::Google);
}

#[test]
fn gjf_section_default_style_is_google() {
    let g = gjf(literal("1.28.0"), None);
    assert_eq!(g.version.as_ref().unwrap().as_literal(), "1.28.0");
    assert!(g.path.is_none());
    assert_eq!(g.style, GjfStyle::Google);
    assert_eq!(g.native, NativeMode::Auto);
}

#[test]
fn rustfmt_license_header_uses_global_when_only_excludes_set() {
    let c = Config {
        license_header: global("config/global.txt"),
        rustfmt: Some(Rustfmt {
            license_header: header(None, Some("config/excludes-rs.txt")),
            paths: None,
        }),
        ..Default::default()
    };
    let resolved = c.rustfmt_header().unwrap();
    assert_eq!(resolved.file, "config/global.txt");
    assert_eq!(resolved.excludes.as_deref(), Some("config/excludes-rs.txt"));
}

#[test]
fn rustfmt_license_header_file_overrides_global() {
    let c = Config {
        license_header: global("config/global.txt"),
        rustfmt: Some(Rustfmt {
            license_header: header(Some("config/rust.txt"), None),
            paths: None,
        }),
        ..Default::default()
    };
    let resolved = c.rustfmt_header().unwrap();
    assert_eq!(resolved.file, "config/rust.txt");
    assert!(resolved.excludes.is_none());
}

#[test]
fn license_header_global_only() {
    let c = Config { license_header: global("config/header.txt"), ..Default::default() };
    assert_eq!(c.license_header.as_ref().unwrap().file, "config/header.txt");
    for resolved in [c.ktfmt_header(), c.gjf_header(), c.rustfmt_header()] {
        assert_eq!(resolved.unwrap().file, "config/header.txt");
    }
}

#[test]
fn ktfmt_license_header_excludes_only() {
    let mut kt = ktfmt(literal("0.56"), None);
    kt.license_header = header(None, Some("config/excludes-kt.txt"));
    let c = Config {
        license_header: global("config/header.txt"),
        ktfmt: Some(kt),
        ..Default::default()
    };
    let resolved = c.ktfmt_header().unwrap();
    assert_eq!(resolved.file, "config/header.txt");
    assert_eq!(resolved.excludes.as_deref(), Some("config/excludes-kt.txt"));
}

#[test]
fn ktfmt_license_header_file_overrides_global() {
    let mut kt = ktfmt(literal("0.56"), None);
    kt.license_header = header(Some("config/kt.txt"), None);
    let c = Config {
        license_header: global("config/global.txt"),
        ktfmt: Some(kt),
        ..Default::default()
    };
    let resolved = c.ktfmt_header().unwrap();
    assert_eq!(resolved.file, "config/kt.txt");
    assert!(resolved.excludes.is_none());
}

#[test]
fn gjf_license_header_uses_global_when_only_excludes_set() {
    let mut g = gjf(literal("1.28.0"), None);
    g.license_header = header(None, Some("config/excludes-java.txt"));
    let c = Config {
        license_header: global("config/global.txt"),
        gjf: Some(g),
        ..Default::default()
    };
    let resolved = c.gjf_header().unwrap();
    assert_eq!(resolved.file, "config/global.txt");
    assert_eq!(resolved.excludes.as_deref(), Some("config/excludes-java.txt"));
}

#[test]
fn license_header_only_per_tool_no_global_works() {
    let mut kt = ktfmt(literal("0.56"), None);
    kt.license_header = header(Some("config/kt.txt"), None);
    let c = Config { ktfmt: Some(kt), ..Default::default() };
    assert_eq!(c.ktfmt_header().unwrap().file, "config/kt.txt");
    // gjf has no per-tool override and no global file → no header
    assert!(c.gjf_header().is_none());
}

#[test]
fn license_header_disabled_when_neither_global_nor_tool_provides_file() {
    let mut kt = ktfmt(literal("0.56"), None);
    kt.license_header = header(None, Some("config/excludes-kt.txt"));
    let c = Config { ktfmt: Some(kt), ..Default::default() };
    // No file anywhere → resolution returns None even though excludes is set.
    assert!(c.ktfmt_header().is_none());
}

#[test]
fn no_license_header_config_yields_no_resolution() {
    let c = Config::default();
    assert!(c.ktfmt_header().is_none());
    assert!(c.gjf_header().is_none());
    assert!(c.rustfmt_header().is_none());
}

#[test]
fn paths_exclude_can_be_a_file_path() {
    let p = Paths { exclude: GlobList::FromFile("config/global-excludes.txt".into()) };
    let texts = files(&[("/r/config/global-excludes.txt", "**/gen/**\n")]);
    assert_eq!(p.exclude.resolve("/r", &texts).unwrap(), list(&["**/gen/**"]));
}

#[test]
fn ktfmt_paths_default_to_kt_extensions() {
    let resolved =
        ktfmt(literal("0.62"), None).resolve_paths("/r", &FileTexts::new()).unwrap();
    assert_eq!(resolved.includes, vec!["**/*.kt", "**/*.kts"]);
    assert!(resolved.exclude.is_empty());
}

#[test]
fn gjf_paths_default_to_java_extension() {
    let resolved = gjf(literal("1.35.0"), None).resolve_paths("/r", &FileTexts::new()).unwrap();
    assert_eq!(resolved.includes, vec!["**/*.java"]);
}

#[test]
fn rustfmt_paths_default_to_rs_extension() {
    let resolved = Rustfmt::default().resolve_paths("/r", &FileTexts::new()).unwrap();
    assert_eq!(resolved.includes, vec!["**/*.rs"]);
}

#[test]
fn whitespace_paths_default_to_all_known_languages() {
    let resolved = Whitespace::default().resolve_paths("/r", &FileTexts::new()).unwrap();
    assert_eq!(resolved.includes, vec!["**/*.kt", "**/*.kts", "**/*.java", "**/*.rs"]);
}

#[test]
fn tool_paths_override_take_precedence_over_defaults() {
    let mut kt = ktfmt(literal("0.62"), None);
    kt.paths = Some(ToolPaths {
        includes: Some(GlobList::Inline(list(&["src/**/*.kt"]))),
        exclude: Some(GlobList::Inline(list(&["**/Generated.kt"]))),
    });
    let resolved = kt.resolve_paths("/r", &FileTexts::new()).unwrap();
    assert_eq!(resolved.includes, vec!["src/**/*.kt"]);
    assert_eq!(resolved.exclude, vec!["**/Generated.kt"]);
}

#[test]
fn defaults_fill_in_what_is_not_set() {
    let p = ToolPaths { includes: None, exclude: Some(GlobList::Inline(vec![])) };
    let resolved =
        p.resolve_with_defaults("/r", &FileTexts::new(), list(&["a"]), list(&["b"])).unwrap();
    assert_eq!(resolved.includes, ["a"]);
    assert!(resolved.exclude.is_empty());
}

#[test]
fn glob_list_resolves_file_path_to_lines() {
    let texts = files(&[(
        "/r/excludes.txt",
        "# header comment\n\n**/Skip.kt\n\n# trailing comment\n**/Other.kt\n",
    )]);
    let list = GlobList::FromFile("excludes.txt".into());
    assert_eq!(list.resolve("/r", &texts).unwrap(), vec!["**/Skip.kt", "**/Other.kt"]);
}

#[test]
fn glob_list_resolves_inline_unchanged() {
    let l = GlobList::Inline(list(&["**/*.kt", "**/*.kts"]));
    assert_eq!(l.resolve("/r", &FileTexts::new()).unwrap(), vec!["**/*.kt", "**/*.kts"]);
}

#[test]
fn unreadable_lists_are_errors() {
    let err = GlobList::FromFile("x.txt".into()).resolve("/r", &FileTexts::new()).unwrap_err();
    assert!(err.message().starts_with("read glob file /r/x.txt: "));
    let err = PathList::FromFile("/abs.txt".into()).resolve("/r", &FileTexts::new()).unwrap_err();
    assert!(err.message().starts_with("read path list /abs.txt: "));
}

#[test]
fn path_lists_resolve_against_the_root() {
    let texts = files(&[("/r/cp.txt", "a\n# b\n /c \n")]);
    let l = PathList::FromFile("cp.txt".into());
    assert_eq!(l.resolve("/r", &texts).unwrap(), ["/r/a", "/c"]);
    let l = PathList::Inline(list(&["a", "/b"]));
    assert_eq!(l.resolve("/r", &texts).unwrap(), ["/r/a", "/b"]);
}

#[test]
fn whitespace_both_disabled() {
    let mut ws = Whitespace::default();
    assert!(ws.any_enabled());
    ws.strip_trailing = false;
    assert!(ws.any_enabled());
    ws.final_newline = false;
    assert!(!ws.any_enabled());
}

#[test]
fn hook_check_mode() {
    assert_eq!(Hook { mode: HookMode::Check }.mode, HookMode::Check);
    assert_eq!(Hook::default().mode, HookMode::default());
}

#[test]
fn ktfmt_missing_version_and_path_rejected() {
    let c = Config { ktfmt: Some(ktfmt(None, None)), ..Default::default() };
    let msg = c.validate().unwrap_err().message();
    assert!(msg.contains("ktfmt") && msg.contains("version"), "got: {msg}");
}

#[test]
fn ktfmt_with_both_version_and_path_rejected() {
    let c = Config {
        ktfmt: Some(ktfmt(literal("0.56"), Some("config/bin/ktfmt.jar"))),
        ..Default::default()
    };
    let msg = c.validate().unwrap_err().message();
    assert!(msg.contains("ktfmt") && msg.contains("pick one"), "got: {msg}");
}

#[test]
fn gjf_with_both_version_and_path_rejected() {
    let c = Config {
        gjf: Some(gjf(literal("1.28.0"), Some("config/bin/gjf.jar"))),
        ..Default::default()
    };
    assert!(c.validate().unwrap_err().message().contains("gjf"));
}

#[test]
fn ktfmt_path_only_is_valid() {
    let c = Config { ktfmt: Some(ktfmt(None, Some("config/bin/ktfmt.jar"))), ..Default::default() };
    assert!(c.validate().is_ok());
}

#[test]
fn ktfmt_source_relative_path_resolves_against_repo_root() {
    let src = ktfmt(None, Some("config/bin/ktfmt.jar")).source("/repo");
    assert_eq!(src, ToolSource::Local("/repo/config/bin/ktfmt.jar".into()));
}

#[test]
fn ktfmt_source_absolute_path_used_as_is() {
    let src = ktfmt(None, Some("/usr/local/share/ktfmt.jar")).source("/repo");
    assert_eq!(src, ToolSource::Local("/usr/local/share/ktfmt.jar".into()));
}

#[test]
fn ktfmt_source_version_returns_cached() {
    let src = ktfmt(literal("0.56"), None).source("/repo");
    assert_eq!(src, ToolSource::Cached("0.56".into()));
}

#[test]
fn gjf_source_relative_path_resolves_against_repo_root() {
    let src = gjf(None, Some("tools/gjf.jar")).source("/r");
    assert_eq!(src, ToolSource::Local("/r/tools/gjf.jar".into()));
}

// --- catalog references ---

fn resolve(c: Config, catalog: &str) -> Result<Config, ConfigError> {
    c.resolve_catalogs("/r", &files(&[("/r/catalog.toml", catalog)]))
}

fn ktfmt_ref(key: Option<&str>) -> Config {
    Config { ktfmt: Some(ktfmt(reference("catalog.toml", key), None)), ..Default::default() }
}

#[test]
fn resolve_catalogs_replaces_ref_with_literal() {
    let c = Config {
        ktfmt: Some(ktfmt(reference("gradle/libs.versions.toml", None), None)),
        gjf: Some(gjf(reference("gradle/libs.versions.toml", None), None)),
        ..Default::default()
    };
    let texts = files(&[(
        "/r/gradle/libs.versions.toml",
        "[versions]\nktfmt = \"0.62\"\ngjf = \"1.35.0\"\n",
    )]);
    let c = c.resolve_catalogs("/r", &texts).unwrap();
    assert_eq!(c.ktfmt.unwrap().version.unwrap().as_literal(), "0.62");
    assert_eq!(c.gjf.unwrap().version.unwrap().as_literal(), "1.35.0");
}

#[test]
fn resolve_catalogs_uses_explicit_key() {
    let c = resolve(
        ktfmt_ref(Some("formatter-kotlin")),
        "[versions]\nformatter-kotlin = \"0.62\"\n",
    )
    .unwrap();
    assert_eq!(c.ktfmt.unwrap().version.unwrap().as_literal(), "0.62");
}

#[test]
fn resolve_catalogs_errors_when_file_missing() {
    let c = Config { ktfmt: Some(ktfmt(reference("missing.toml", None), None)), ..Default::default() };
    let msg = resolve(c, "").unwrap_err().message();
    assert!(msg.contains("missing.toml"), "got: {msg}");
}

#[test]
fn resolve_catalogs_errors_when_versions_table_absent() {
    let err = resolve(ktfmt_ref(None), "[libraries]\nktfmt = { module = \"x\" }\n").unwrap_err();
    assert!(err.message().contains("[versions]"));
}

#[test]
fn resolve_catalogs_errors_when_key_missing() {
    let msg = resolve(ktfmt_ref(None), "[versions]\nfoo = \"1.0\"\n").unwrap_err().message();
    assert!(msg.contains("ktfmt"), "expected key name in error: {msg}");
}

#[test]
fn resolve_catalogs_errors_clearly_for_rich_version() {
    let err = resolve(ktfmt_ref(None), "[versions]\nktfmt = { strictly = \"0.62\" }\n").unwrap_err();
    assert!(err.message().contains("rich"));
}

#[test]
fn resolve_catalogs_caches_per_file() {
    let mut c = ktfmt_ref(None);
    c.gjf = Some(gjf(reference("catalog.toml", None), None));
    resolve(c, "[versions]\nktfmt = \"0.62\"\ngjf = \"1.35.0\"\n").unwrap();
}

#[test]
fn resolve_catalogs_passes_through_literal_versions() {
    let c = Config { ktfmt: Some(ktfmt(literal("0.62"), None)), ..Default::default() };
    let c = c.resolve_catalogs("/r", &FileTexts::new()).unwrap();
    assert_eq!(c.ktfmt.unwrap().version.unwrap().as_literal(), "0.62");
}

#[test]
fn broken_catalogs_are_told_apart() {
    let fault = |text: &str| match resolve(ktfmt_ref(None), text).unwrap_err() {
        ConfigError::Catalog { fault, .. } => fault,
        e => panic!("{e:?}"),
    };
    assert_eq!(fault("[versions"), CatalogFault::NotToml);
    assert_eq!(fault("versions = 1"), CatalogFault::VersionsNotTable);
    assert_eq!(fault("[versions]\nktfmt = 1"), CatalogFault::KeyMissing);
    assert_eq!(fault(""), CatalogFault::VersionsMissing);
    assert_eq!(pick_version(TomlKind::Other, None, None), Err(CatalogFault::NotTable));
    assert_eq!(
        pick_version(
            TomlKind::Table,
            Some(TomlKind::Table),
            Some(TomlKind::Text("1".into()))
        ),
        Ok("1".to_string())
    );
}

// --- detekt ---

#[test]
fn detekt_simple_config_resolves_default_light_target() {
    let mut d = detekt(literal("2.0.0-alpha.5"));
    d.configs = list(&["config/detekt.yml"]);
    d.build_upon_default_config = true;
    d.paths = Some(ToolPaths {
        includes: None,
        exclude: Some(GlobList::Inline(list(&["**/generated/**"]))),
    });
    let targets = d.resolve_targets("/repo", &FileTexts::new()).unwrap();
    assert_eq!(targets.len(), 1);
    assert_eq!(targets[0].name, "default");
    assert_eq!(targets[0].configs, list(&["/repo/config/detekt.yml"]));
    assert!(targets[0].classpath.is_empty());
    assert_eq!(targets[0].paths.includes, vec!["**/*.kt", "**/*.kts"]);
    assert_eq!(targets[0].paths.exclude, vec!["**/generated/**"]);
}

fn detekt_target(name: &str, includes: &str) -> DetektTarget {
    DetektTarget {
        name: name.into(),
        configs: None,
        config_resources: None,
        baseline: None,
        build_upon_default_config: None,
        plugins: None,
        reports: None,
        paths: Some(ToolPaths { includes: Some(GlobList::Inline(list(&[includes]))), exclude: None }),
        classpath: None,
        jvm_target: None,
        args: vec![],
    }
}

#[test]
fn detekt_targets_can_override_config_and_classpath() {
    let mut d = detekt(literal("2.0.0-alpha.5"));
    d.configs = list(&["config/shared.yml"]);
    let mut main = detekt_target("main", "app/src/main/**/*.kt");
    main.classpath = Some(PathList::FromFile("config/main-classpath.txt".into()));
    main.jvm_target = Some("17".into());
    let mut scripts = detekt_target("scripts", "**/*.kts");
    scripts.configs = Some(list(&["config/scripts.yml"]));
    d.targets = vec![main, scripts];
    let texts = files(&[(
        "/repo/config/main-classpath.txt",
        "build/classes\n# comment\nlibs/dependency.jar\n",
    )]);
    let targets = d.resolve_targets("/repo", &texts).unwrap();
    assert_eq!(targets.len(), 2);
    assert_eq!(targets[0].name, "main");
    assert_eq!(targets[0].jvm_target.as_deref(), Some("17"));
    assert_eq!(targets[0].classpath.len(), 2);
    assert!(targets[0].classpath[0].ends_with("build/classes"));
    assert!(targets[1].classpath.is_empty());
    assert!(targets[1].configs[0].ends_with("config/scripts.yml"));
    assert_eq!(targets[0].configs, list(&["/repo/config/shared.yml"]));
}

#[test]
fn detekt_classpath_requires_jvm_target() {
    let mut d = detekt(literal("1.23.8"));
    d.classpath = Some(PathList::Inline(list(&["build/classes"])));
    let err = d.resolve_targets("/repo", &FileTexts::new()).unwrap_err();
    assert!(err.message().contains("jvm-target"));
}

#[test]
fn detekt_args_reject_kempt_owned_inputs() {
    let mut d = detekt(literal("1.23.8"));
    d.args = list(&["--input", "src"]);
    let c = Config { detekt: Some(d), ..Default::default() };
    assert!(c.validate().unwrap_err().message().contains("Kempt-owned"));

    let mut d = detekt(literal("2.0.0-alpha.5"));
    d.args = list(&["--analysis-mode=full"]);
    let c = Config { detekt: Some(d), ..Default::default() };
    assert!(c.validate().unwrap_err().message().contains("Kempt-owned"));
    assert!(validate_detekt_args(&list(&["--parallel", "--inputs"])).is_ok());
}

#[test]
fn detekt_version_resolves_from_catalog() {
    let c = Config { detekt: Some(detekt(reference("catalog.toml", None))), ..Default::default() };
    let c = resolve(c, "[versions]\ndetekt = \"1.23.8\"\n").unwrap();
    assert_eq!(c.detekt.unwrap().version.unwrap().as_literal(), "1.23.8");
}

#[test]
fn text_files_of_a_configuration_are_listed() {
    let mut cfg = Config {
        ktfmt: Some(ktfmt(reference("gradle/libs.versions.toml", None), None)),
        gjf: Some(gjf(literal("1.28.0"), None)),
        license_header: global("config/header.txt"),
        paths: Paths { exclude: GlobList::FromFile("skip.txt".into()) },
        ..Default::default()
    };
    cfg.ktfmt.as_mut().unwrap().license_header = header(None, Some("config/no-header.txt"));
    let mut linter = detekt(literal("1.23.8"));
    linter.classpath = Some(PathList::FromFile("/build/classpath.txt".into()));
    cfg.detekt = Some(linter);
    assert_eq!(
        list_text_files(&cfg, "/repo"),
        [
            "/repo/gradle/libs.versions.toml",
            "/repo/skip.txt",
            "/repo/config/header.txt",
            "/repo/config/no-header.txt",
            "/repo/config/header.txt",
            "/repo/config/header.txt",
            "/build/classpath.txt",
        ]
    );
    assert!(list_text_files(&Config::default(), "/repo").is_empty());
}
