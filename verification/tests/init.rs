//! The starter configuration.

use kempt::commands::FileWrite;
use kempt::init::{build_starter_config, detect_languages, run_init, skips, DetectedLanguages};

fn languages(files: &[&str]) -> DetectedLanguages {
    let seen: Vec<String> = files
        .iter()
        .filter(|f| {
            let parts: Vec<&str> = f.split('/').collect();
            !parts[..parts.len() - 1].iter().any(|d| skips(d, true, false))
        })
        .map(|f| f.to_string())
        .collect();
    detect_languages(&seen)
}

fn init(files: &[&str]) -> Vec<FileWrite> {
    run_init("/r", languages(files), true, false, false)
}

fn body(files: &[&str]) -> String {
    init(files).remove(0).content
}

#[test]
fn run_init_writes_starter_files() {
    let written = init(&[]);
    assert_eq!(written.len(), 2);
    assert_eq!(written[0].path, "/r/.kempt.toml");
    assert_eq!(written[1].path, "/r/config/license-header.txt");
    assert!(written[1].content.contains("${YEAR}"));
}

#[test]
fn run_init_is_idempotent() {
    let again = run_init("/r", languages(&[]), true, true, true);
    assert!(again.is_empty(), "second run should write nothing");
}

#[test]
fn headers_are_written_on_demand() {
    let written = run_init("/r", languages(&[]), false, false, false);
    assert_eq!(written.len(), 1);
    assert!(!written[0].content.contains("[license-header]"));
    assert!(body(&[]).contains("[license-header]\nfile = \"config/license-header.txt\"\n"));
}

#[test]
fn detect_languages_finds_kotlin() {
    let langs = languages(&["src/Foo.kt"]);
    assert!(langs.kotlin && !langs.java && !langs.rust);
}

#[test]
fn detect_languages_finds_java() {
    let langs = languages(&["src/Bar.java"]);
    assert!(langs.java && !langs.kotlin && !langs.rust);
}

#[test]
fn detect_languages_finds_rust() {
    let langs = languages(&["src/lib.rs"]);
    assert!(langs.rust && !langs.kotlin && !langs.java);
}

#[test]
fn detect_languages_finds_kts_as_kotlin() {
    let langs = languages(&["build.gradle.kts"]);
    assert!(langs.kotlin);
}

#[test]
fn detect_languages_finds_both() {
    let langs = languages(&["src/Foo.kt", "src/Bar.java", "src/lib.rs"]);
    assert!(langs.kotlin && langs.java && langs.rust);
}

#[test]
fn detect_languages_skips_build_and_dot_git() {
    let langs = languages(&["build/Generated.kt", ".git/hooks/script.java", "target/generated.rs"]);
    assert!(!langs.kotlin && !langs.java && !langs.rust);
    assert_eq!(langs, DetectedLanguages::default());
}

#[test]
fn the_starting_directory_is_never_skipped() {
    assert!(skips("node_modules", true, false));
    assert!(!skips("build", true, true));
    assert!(!skips("build", false, false));
    assert!(!skips("src", true, false));
}

#[test]
fn run_init_kotlin_only_omits_gjf() {
    let body = body(&["src/Foo.kt"]);
    assert!(body.contains("[ktfmt]"));
    assert!(!body.contains("[gjf]"));
    assert!(!body.contains("[rustfmt]"));
}

#[test]
fn run_init_java_only_omits_ktfmt() {
    let body = body(&["src/Bar.java"]);
    assert!(body.contains("[gjf]"));
    assert!(!body.contains("[ktfmt]"));
    assert!(!body.contains("[rustfmt]"));
}

#[test]
fn run_init_rust_only_omits_ktfmt_and_gjf() {
    let body = body(&["src/lib.rs"]);
    assert!(body.contains("[rustfmt]"));
    assert!(!body.contains("[ktfmt]"));
    assert!(!body.contains("[gjf]"));
}

#[test]
fn run_init_empty_repo_writes_both_sections() {
    let body = body(&[]);
    assert!(body.contains("[ktfmt]"));
    assert!(body.contains("[gjf]"));
    assert!(body.contains("[rustfmt]"));
}

#[test]
fn run_init_starter_does_not_write_explicit_default_styles() {
    let body = body(&["src/Foo.kt", "src/Bar.java", "src/lib.rs"]);
    assert!(
        !body.contains("style = \"google\""),
        "starter config should rely on the default style, got:\n{body}"
    );
}

#[test]
fn run_init_starter_parses_as_valid_config() {
    let body = body(&["src/Foo.kt", "src/Bar.java", "src/lib.rs"]);
    let table: toml::Table = body.parse().expect("starter parses");
    assert!(table["ktfmt"]["version"].as_str().is_some());
    assert!(table["gjf"]["version"].as_str().is_some());
    assert!(table["rustfmt"].as_table().unwrap().is_empty());
    // Without a `style`, both sections have their default one.
    assert!(table["ktfmt"].get("style").is_none());
    assert!(table["gjf"].get("style").is_none());
    assert_eq!(kempt::config::KtfmtStyle::default(), kempt::config::KtfmtStyle::Google);
    assert_eq!(kempt::config::GjfStyle::default(), kempt::config::GjfStyle::Google);
    assert_eq!(table["hook"]["mode"].as_str(), Some("format"));
}

#[test]
fn starter_config_is_written_out() {
    let langs = DetectedLanguages { kotlin: true, java: false, rust: false };
    assert_eq!(
        build_starter_config(langs, false),
        "# kempt configuration: https://github.com/ZacSweers/kempt\n\
         # Run `kempt --help` to see all options.\n\n\
         [ktfmt]\nversion = \"0.63\"\n\n\
         [hook]\nmode = \"format\"   # format | check\n"
    );
}
