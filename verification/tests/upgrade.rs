//! Bumping versions.

use kempt::catalog::TomlKind;
use kempt::upgrade::{
    decide, extract_json_string_field, extract_xml_tag, run_upgrade, select_detekt_release,
    Decision, FetchError, GitHubRelease, UpgradeError, UpgradeOutcome, UreqVersionFetcher,
    VersionFetcher,
};
use std::cell::RefCell;

struct FakeFetcher {
    ktfmt: Result<String, String>,
    gjf: Result<String, String>,
    detekt: Result<String, String>,
    asked: RefCell<Vec<String>>,
}

impl FakeFetcher {
    fn new(ktfmt: &str, gjf: &str) -> Self {
        FakeFetcher {
            ktfmt: Ok(ktfmt.to_string()),
            gjf: Ok(gjf.to_string()),
            detekt: Ok("1.23.8".to_string()),
            asked: RefCell::new(vec![]),
        }
    }

    fn answer(&self, what: &str, r: &Result<String, String>) -> Result<String, FetchError> {
        self.asked.borrow_mut().push(what.to_string());
        r.clone().map_err(|message| FetchError { message })
    }
}

impl VersionFetcher for FakeFetcher {
    fn latest_ktfmt(&self) -> Result<String, FetchError> {
        self.answer("ktfmt", &self.ktfmt)
    }
    fn latest_gjf(&self) -> Result<String, FetchError> {
        self.answer("gjf", &self.gjf)
    }
    fn latest_detekt(&self, current: &str) -> Result<String, FetchError> {
        self.answer(current, &self.detekt)
    }
}

fn upgrade(text: &str, fetcher: &FakeFetcher, dry_run: bool) -> (UpgradeOutcome, Option<String>) {
    run_upgrade(text, ".kempt.toml", fetcher, dry_run).unwrap()
}

#[test]
fn upgrades_both_when_outdated() {
    let fetcher = FakeFetcher::new("0.62", "1.35.0");
    let (outcome, body) = upgrade(
        "[ktfmt]\nversion = \"0.50\"\n\n[gjf]\nversion = \"1.20.0\"\n",
        &fetcher,
        false,
    );
    assert_eq!(outcome.changes.len(), 2);
    let body = body.unwrap();
    assert!(body.contains("version = \"0.62\""));
    assert!(body.contains("version = \"1.35.0\""));
    assert_eq!(body, "[ktfmt]\nversion = \"0.62\"\n\n[gjf]\nversion = \"1.35.0\"\n");
}

#[test]
fn dry_run_does_not_write() {
    let fetcher = FakeFetcher::new("0.62", "1.35.0");
    let (outcome, body) = upgrade("[ktfmt]\nversion = \"0.50\"\n", &fetcher, true);
    assert_eq!(outcome.changes.len(), 1);
    assert_eq!(body, None);
}

#[test]
fn no_changes_when_already_current() {
    let fetcher = FakeFetcher::new("0.62", "1.35.0");
    let (outcome, body) = upgrade(
        "[ktfmt]\nversion = \"0.62\"\n\n[gjf]\nversion = \"1.35.0\"\n",
        &fetcher,
        false,
    );
    assert!(outcome.changes.is_empty());
    assert_eq!(outcome.already_current.len(), 2);
    assert_eq!(body, None);
}

#[test]
fn skips_path_based_section() {
    let fetcher = FakeFetcher::new("0.62", "1.35.0");
    let (outcome, _) = upgrade(
        "[ktfmt]\npath = \"config/bin/ktfmt.jar\"\n\n[gjf]\nversion = \"1.20.0\"\n",
        &fetcher,
        true,
    );
    assert_eq!(outcome.changes.len(), 1);
    assert_eq!(outcome.changes[0].tool, "gjf");
    assert_eq!(outcome.skipped.len(), 1);
    assert!(outcome.skipped[0].contains("ktfmt"));
    assert!(outcome.skipped[0].contains("path"));
}

#[test]
fn skips_catalog_ref_section() {
    let fetcher = FakeFetcher::new("0.62", "1.35.0");
    let (outcome, _) = upgrade(
        "[ktfmt]\nversion = { file = \"libs.versions.toml\", key = \"ktfmt\" }\n",
        &fetcher,
        true,
    );
    assert!(outcome.changes.is_empty());
    assert_eq!(outcome.skipped.len(), 1);
    assert!(outcome.skipped[0].contains("catalog"));
    assert!(fetcher.asked.borrow().is_empty());
}

#[test]
fn preserves_comments_and_formatting() {
    let original = "\
# important comment
[ktfmt]
version = \"0.50\"   # inline comment
style = \"google\"
";
    let fetcher = FakeFetcher::new("0.62", "1.35.0");
    let body = upgrade(original, &fetcher, false).1.unwrap();
    assert!(body.contains("# important comment"));
    assert!(body.contains("# inline comment"));
    assert!(body.contains("style = \"google\""));
    assert!(body.contains("version = \"0.62\""));
    assert_eq!(body, original.replace("0.50", "0.62"));
}

#[test]
fn missing_section_is_a_noop() {
    // Only [ktfmt] configured; [gjf] missing.
    let fetcher = FakeFetcher::new("0.62", "1.35.0");
    let (outcome, _) = upgrade("[ktfmt]\nversion = \"0.50\"\n", &fetcher, false);
    assert_eq!(outcome.changes.len(), 1);
    // No skip noise for an absent section.
    assert!(outcome.skipped.is_empty());
    assert_eq!(*fetcher.asked.borrow(), ["ktfmt"]);
}

#[test]
fn upgrades_detekt_without_crossing_back_from_v2_prereleases() {
    let mut fetcher = FakeFetcher::new("0.62", "1.35.0");
    fetcher.detekt = Ok("2.0.0-alpha.5".into());
    let (outcome, body) = upgrade("[detekt]\nversion = \"2.0.0-alpha.3\"\n", &fetcher, false);
    assert_eq!(outcome.changes.len(), 1);
    assert_eq!(outcome.changes[0].tool, "detekt");
    assert!(body.unwrap().contains("2.0.0-alpha.5"));
    assert_eq!(*fetcher.asked.borrow(), ["2.0.0-alpha.3"]);
}

fn release(tag: &str, draft: bool) -> GitHubRelease {
    GitHubRelease { tag_name: tag.to_string(), draft }
}

#[test]
fn detekt_release_selection_preserves_prerelease_major() {
    let releases = vec![release("v1.23.8", false), release("v2.0.0-alpha.5", false)];
    assert_eq!(
        select_detekt_release("2.0.0-alpha.3", &releases).unwrap(),
        "2.0.0-alpha.5"
    );
}

#[test]
fn detekt_release_selection_leaves_drafts_and_prereleases_out() {
    let releases =
        vec![release("v1.24.0", true), release("2.0.0-alpha.5", false), release("1.23.8", false)];
    assert_eq!(select_detekt_release("v1.22.0", &releases).unwrap(), "1.23.8");
    assert_eq!(
        select_detekt_release("v3.0.0-beta", &releases).unwrap_err().message,
        "could not find a compatible detekt release for `3.0.0-beta`"
    );
}

#[test]
fn tables_are_found_in_every_form() {
    let fetcher = FakeFetcher::new("2", "1.35.0");
    let text = "ktfmt.version = '1'\ngjf = { version = \"1\" } # one line\n";
    let (outcome, body) = upgrade(text, &fetcher, false);
    assert_eq!(outcome.changes.len(), 2);
    assert_eq!(
        body.unwrap(),
        "ktfmt.version = \"2\"\ngjf = { version = \"1.35.0\" } # one line\n"
    );
    let (outcome, _) = upgrade("ktfmt = 1\ngjf = [1]\n[[detekt]]\nversion = \"1\"\n", &fetcher, false);
    assert_eq!(outcome, UpgradeOutcome::default());
}

#[test]
fn the_written_text_is_current() {
    let fetcher = FakeFetcher::new("0.6\"2\\", "1.35.0");
    let text = "[ktfmt]\nversion = \"0.50\"\n";
    let body = upgrade(text, &fetcher, false).1.unwrap();
    let (outcome, again) = upgrade(&body, &fetcher, false);
    assert_eq!(outcome.already_current, ["ktfmt"]);
    assert_eq!(again, None);
}

#[test]
fn failed_fetches_and_broken_texts_are_errors() {
    let mut fetcher = FakeFetcher::new("0.62", "1.35.0");
    fetcher.gjf = Err("offline".into());
    let err = run_upgrade("[gjf]\nversion = \"1\"\n", "c.toml", &fetcher, false).unwrap_err();
    assert_eq!(err.message(), "fetch latest gjf version: offline");
    let err = run_upgrade("[gjf\n", "c.toml", &fetcher, false).unwrap_err();
    assert!(matches!(err, UpgradeError::NotToml { .. }));
    assert!(err.message().starts_with("parse c.toml as TOML: "));
}

#[test]
fn sections_are_decided_by_what_stands_there() {
    let text = || Some(TomlKind::Text("1".into()));
    assert_eq!(decide("gjf", None, None), Decision::Ignore);
    assert_eq!(decide("gjf", text(), text()), Decision::Ignore);
    assert_eq!(
        decide("gjf", Some(TomlKind::Table), None),
        Decision::Skip("gjf: uses `path = ...`, skipping".into())
    );
    assert_eq!(
        decide("gjf", Some(TomlKind::Table), Some(TomlKind::Other)),
        Decision::Skip("gjf: uses a catalog reference; bump the catalog file directly".into())
    );
    assert_eq!(decide("gjf", Some(TomlKind::Table), text()), Decision::Compare("1".into()));
}

// --- reading the sites ---

#[test]
fn extract_release_tag_from_maven_metadata() {
    let body = "\
<metadata>
  <groupId>com.facebook</groupId>
  <artifactId>ktfmt</artifactId>
  <versioning>
    <release>0.62</release>
    <versions><version>0.61</version><version>0.62</version></versions>
  </versioning>
</metadata>";
    assert_eq!(extract_xml_tag(body, "release").as_deref(), Some("0.62"));
    assert_eq!(UreqVersionFetcher.ktfmt_release(body).unwrap(), "0.62");
}

#[test]
fn extract_tag_name_from_github_response() {
    let body = r#"{"name":"1.35.0","tag_name":"v1.35.0","draft":false}"#;
    assert_eq!(
        extract_json_string_field(body, "tag_name").as_deref(),
        Some("v1.35.0")
    );
    assert_eq!(UreqVersionFetcher.gjf_release(body).unwrap(), "1.35.0");
}

#[test]
fn extract_tag_name_handles_whitespace_around_colon() {
    let body = r#"{ "tag_name" :  "v0.62" }"#;
    assert_eq!(
        extract_json_string_field(body, "tag_name").as_deref(),
        Some("v0.62")
    );
}

#[test]
fn incomplete_answers_give_nothing() {
    assert_eq!(extract_xml_tag("<a>1", "a"), None);
    assert_eq!(extract_xml_tag("</a>1", "a"), None);
    assert_eq!(extract_xml_tag("<a> é </a>", "a").as_deref(), Some("é"));
    assert_eq!(extract_json_string_field("{\"a\":1}", "a"), None);
    assert_eq!(extract_json_string_field("{\"a\"}", "a"), None);
    assert_eq!(extract_json_string_field("{\"a\":\"1}", "a"), None);
    assert!(UreqVersionFetcher.ktfmt_release("").unwrap_err().message.contains("<release>"));
    assert!(UreqVersionFetcher.gjf_release("").unwrap_err().message.contains("`tag_name`"));
}
