//! The command line of detekt.

use kempt::cache::{Cache, DownloadError, Downloader};
use kempt::config::{Detekt, ResolvedDetektTarget, ResolvedPaths, VersionSpec};
use kempt::detekt::{
    build_args, build_command, classify_output, command_line, detect_major, parse_major,
    resolve_invoker, CliMajor, DetektError, Invoker, Platform,
};
use kempt::formatters::{filter_jvm_noise, ToolOutput};
use std::cell::RefCell;

fn list(items: &[&str]) -> Vec<String> {
    items.iter().map(|s| s.to_string()).collect()
}

fn target() -> ResolvedDetektTarget {
    ResolvedDetektTarget {
        name: "main".into(),
        configs: list(&["/repo/config/a.yml", "/repo/config/b.yml"]),
        config_resources: vec![],
        baseline: Some("/repo/config/baseline.xml".into()),
        build_upon_default_config: true,
        plugins: list(&["/repo/config/rules.jar"]),
        reports: list(&["html:build/reports/detekt.html"]),
        paths: ResolvedPaths { includes: list(&["**/*.kt"]), exclude: vec![] },
        classpath: list(&["/repo/build/classes", "/repo/lib/a.jar"]),
        jvm_target: Some("17".into()),
        args: list(&["--parallel"]),
    }
}

fn arg_after<'a>(args: &'a [String], flag: &str) -> &'a str {
    let index = args.iter().position(|arg| arg == flag).unwrap();
    &args[index + 1]
}

#[test]
fn v1_uses_comma_for_multi_value_cli_arguments() {
    let args =
        build_args(CliMajor::V1, Platform::Unix, &target(), "/repo", &list(&["src/A.kt", "src/B.kt"])).unwrap();
    assert_eq!(arg_after(&args, "--config"), "/repo/config/a.yml,/repo/config/b.yml");
    assert_eq!(arg_after(&args, "--input"), "/repo/src/A.kt,/repo/src/B.kt");
    assert!(!args.iter().any(|arg| arg == "--analysis-mode"));
}

#[test]
fn v2_uses_platform_paths_and_enables_full_analysis() {
    let args =
        build_args(CliMajor::V2, Platform::Unix, &target(), "/repo", &list(&["src/A.kt", "src/B.kt"])).unwrap();
    let configs: Vec<&str> = arg_after(&args, "--config").split(':').collect();
    assert_eq!(configs, ["/repo/config/a.yml", "/repo/config/b.yml"]);
    assert_eq!(arg_after(&args, "--analysis-mode"), "full");
}

#[test]
fn v2_without_classpath_uses_light_analysis() {
    let mut target = target();
    target.classpath.clear();
    target.jvm_target = None;
    let args = build_args(CliMajor::V2, Platform::Unix, &target, "/repo", &list(&["A.kt"])).unwrap();
    assert_eq!(arg_after(&args, "--analysis-mode"), "light");
    assert!(!args.iter().any(|arg| arg == "--classpath"));
}

#[test]
fn jvm_warnings_are_removed_without_hiding_detekt_errors() {
    let stderr = "WARNING: deprecated JVM API\ne: invalid config\nWARNING: remove later\n";
    assert_eq!(filter_jvm_noise(stderr), "e: invalid config");
}

#[test]
fn arguments_come_in_order() {
    let args = build_args(CliMajor::V1, Platform::Unix, &target(), "/repo", &list(&["A.kt"])).unwrap();
    assert_eq!(
        args,
        [
            "--parallel",
            "--base-path",
            "/repo",
            "--build-upon-default-config",
            "--config",
            "/repo/config/a.yml,/repo/config/b.yml",
            "--baseline",
            "/repo/config/baseline.xml",
            "--plugins",
            "/repo/config/rules.jar",
            "--report",
            "html:build/reports/detekt.html",
            "--classpath",
            "/repo/build/classes:/repo/lib/a.jar",
            "--jvm-target",
            "17",
            "--input",
            "/repo/A.kt",
        ]
    );
}

#[test]
fn separators_inside_paths_are_rejected_where_they_matter() {
    let mut t = target();
    t.configs = list(&["a:b.yml"]);
    assert!(build_args(CliMajor::V1, Platform::Unix, &t, "/repo", &vec![]).is_ok());
    let err = build_args(CliMajor::V2, Platform::Unix, &t, "/repo", &vec![]).unwrap_err();
    assert_eq!(err, DetektError::Separator(Platform::Unix));
    assert!(err.message().contains("separator `:`"));
    let mut t = target();
    t.classpath = list(&["a:b"]);
    assert!(build_args(CliMajor::V1, Platform::Unix, &t, "/repo", &vec![]).is_err());
}

#[test]
fn generations_go_by_the_first_number() {
    assert_eq!(parse_major("1.23.8").unwrap(), CliMajor::V1);
    assert_eq!(parse_major("v2.0.0-alpha.5").unwrap(), CliMajor::V2);
    assert_eq!(
        parse_major("3.0").unwrap_err().message(),
        "unsupported detekt CLI version `3.0`"
    );
    assert!(parse_major("12.0").is_err());
}

fn output(code: Option<i32>, stdout: &str, stderr: &str) -> ToolOutput {
    ToolOutput {
        success: code == Some(0),
        code,
        stdout: stdout.to_string(),
        stderr: stderr.to_string(),
    }
}

#[test]
fn local_detekt_tells_its_generation() {
    assert_eq!(detect_major(&output(Some(0), "detekt 1.23.8\n", "")).unwrap(), CliMajor::V1);
    assert_eq!(detect_major(&output(Some(0), "", "detekt v2.0\n")).unwrap(), CliMajor::V2);
    let err = detect_major(&output(Some(0), " none ", "")).unwrap_err();
    assert_eq!(err.message(), "could not determine detekt CLI version from `none`");
    assert!(matches!(
        detect_major(&output(Some(0), "10.1", "")),
        Err(DetektError::Unsupported { .. })
    ));
    assert_eq!(detect_major(&output(Some(1), "1.2", "")), Err(DetektError::VersionFailed));
}

#[test]
fn exit_codes_are_classified() {
    let t = target();
    let clean = classify_output(&t, &output(Some(0), "ok", "WARNING: x\n")).unwrap();
    assert!(!clean.findings && clean.stdout == "ok" && clean.stderr.is_empty());
    assert!(classify_output(&t, &output(Some(2), "found", "")).unwrap().findings);
    let text = |code, out, err| classify_output(&t, &output(code, out, err)).unwrap_err().message();
    assert_eq!(text(Some(1), "", ""), "detekt target `main` unexpected error (exit 1)");
    assert_eq!(
        text(Some(3), "a\n", "b\n"),
        "detekt target `main` invalid configuration (exit 3):\na\nb"
    );
    assert_eq!(text(None, "", ""), "detekt target `main` failed (exit -1)");
}

#[test]
fn command_line_starts_with_the_program() {
    let jar = Invoker::Jar("/c/detekt.jar".into());
    assert_eq!(
        build_command(&jar, Some("/bin/java".into())).unwrap(),
        ["/bin/java", "-jar", "/c/detekt.jar"]
    );
    assert_eq!(build_command(&jar, None), Err(DetektError::NoJava));
    let exe = Invoker::Executable("/c/detekt".into());
    let files = list(&["A.kt"]);
    let words =
        command_line(&exe, CliMajor::V1, Platform::Unix, &target(), "/repo", &files, None).unwrap();
    assert_eq!(words[..2], list(&["/c/detekt", "--parallel"]));
    assert_eq!(
        command_line(&jar, CliMajor::V1, Platform::Unix, &target(), "/repo", &files, None),
        Err(DetektError::NoJava)
    );
}

struct FakeDownloader {
    calls: RefCell<Vec<String>>,
}

impl Downloader for FakeDownloader {
    fn download(&self, url: &str, _dest: &str) -> Result<(), DownloadError> {
        self.calls.borrow_mut().push(url.to_string());
        Ok(())
    }
}

fn detekt(version: Option<&str>, path: Option<&str>) -> Detekt {
    Detekt {
        version: version.map(|v| VersionSpec::Literal(v.to_string())),
        path: path.map(|p| p.to_string()),
        configs: vec![],
        config_resources: vec![],
        baseline: None,
        build_upon_default_config: false,
        plugins: vec![],
        reports: vec![],
        paths: None,
        classpath: None,
        jvm_target: None,
        args: vec![],
        targets: vec![],
    }
}

#[test]
fn detekt_comes_from_the_cache_or_the_repository() {
    let cache = Cache::new("/c".into());
    let dl = FakeDownloader { calls: RefCell::new(vec![]) };
    let (invoker, major) =
        resolve_invoker(&detekt(Some("1.23.8"), None), "/repo", &cache, &dl, &vec![]).unwrap();
    assert_eq!(invoker, Invoker::Jar("/c/detekt-1.23.8.jar".into()));
    assert_eq!(major, Some(CliMajor::V1));
    assert_eq!(dl.calls.borrow().len(), 1);

    let err = resolve_invoker(&detekt(Some("0.9"), None), "/repo", &cache, &dl, &vec![]).unwrap_err();
    assert!(matches!(err, DetektError::Unsupported { .. }));
    assert_eq!(dl.calls.borrow().len(), 1);

    let disk = list(&["/repo/bin/d.jar", "/repo/bin/d"]);
    let local = |p: &str| resolve_invoker(&detekt(None, Some(p)), "/repo", &cache, &dl, &disk);
    assert_eq!(local("bin/d.jar").unwrap(), (Invoker::Jar("/repo/bin/d.jar".into()), None));
    assert_eq!(local("bin/d").unwrap(), (Invoker::Executable("/repo/bin/d".into()), None));
    assert_eq!(local("bin/x").unwrap_err().message(), "detekt binary not found: /repo/bin/x");
}

#[test]
fn windows_lists_are_separated_by_semicolons() {
    let mut t = target();
    t.classpath = list(&["C:/lib/a.jar", "C:/odd;name/b.jar"]);
    t.configs = list(&["C:/repo/a.yml", "C:/repo/b.yml"]);
    let build = |major, t: &ResolvedDetektTarget| {
        build_args(major, Platform::Windows, t, "C:/repo", &list(&["A.kt", "B.kt"]))
    };
    let args = build(CliMajor::V2, &t).unwrap();
    assert_eq!(arg_after(&args, "--classpath"), "C:/lib/a.jar;\"C:/odd;name/b.jar\"");
    assert_eq!(arg_after(&args, "--config"), "C:/repo/a.yml;C:/repo/b.yml");
    assert_eq!(arg_after(&args, "--input"), "C:/repo/A.kt;C:/repo/B.kt");
    let args = build(CliMajor::V1, &t).unwrap();
    assert_eq!(arg_after(&args, "--config"), "C:/repo/a.yml,C:/repo/b.yml");
    assert_eq!(arg_after(&args, "--classpath"), "C:/lib/a.jar;\"C:/odd;name/b.jar\"");

    t.classpath = list(&["a\"b"]);
    let err = build(CliMajor::V1, &t).unwrap_err();
    assert_eq!(
        err.message(),
        "join detekt path list failed: path segment contains `\"`"
    );
    assert_eq!(err, DetektError::Separator(Platform::Windows));
}
