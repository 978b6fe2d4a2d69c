//! The starter configuration.

use crate::chars;
use crate::commands::FileWrite;
use crate::config::CONFIG_FILE;
use crate::fspath;
use crate::text;
use vstd::prelude::*;

verus! {

/// Version of ktfmt in the starter configuration.
pub const STARTER_KTFMT_VERSION: &'static str = "0.63";

/// Version of google-java-format in the starter configuration.
pub const STARTER_GJF_VERSION: &'static str = "1.35.0";

/// The starter template of license headers.
pub const STARTER_HEADER: &'static str =
    "// Copyright (C) ${YEAR} <author>\n// SPDX-License-Identifier: Apache-2.0\n";

/// The languages that were found in a repository.
#[derive(Debug, Clone, Copy, PartialEq, Eq, Structural)]
pub struct DetectedLanguages {
    pub kotlin: bool,
    pub java: bool,
    pub rust: bool,
}

impl Default for DetectedLanguages {
    fn default() -> (r: Self)
        ensures
            r == (DetectedLanguages { kotlin: false, java: false, rust: false }),
    {
        DetectedLanguages { kotlin: false, java: false, rust: false }
    }
}

/// One of the files has one of the extensions.
pub open spec fn some_file(files: Seq<Seq<char>>, a: Seq<char>, b: Seq<char>) -> bool {
    exists|i: int|
        0 <= i < files.len() && (fspath::suffix(#[trigger] files[i]) == Some(a) || fspath::suffix(
            files[i],
        ) == Some(b))
}

/// The languages of the files, by their extensions.
pub open spec fn languages_of(files: Seq<Seq<char>>) -> DetectedLanguages {
    DetectedLanguages {
        kotlin: some_file(files, "kt"@, "kts"@),
        java: some_file(files, "java"@, "java"@),
        rust: some_file(files, "rs"@, "rs"@),
    }
}

/// Whether the search for languages leaves an entry out: directories, other than
/// where it starts, that hold what is built or managed by others.
pub fn skips(name: &str, is_dir: bool, is_start: bool) -> (r: bool)
    ensures
        r == (!is_start && is_dir && (name@ == ".git"@ || name@ == "build"@ || name@ == "target"@
            || name@ == "node_modules"@)),
{
    !is_start && is_dir && (text::same(name, ".git") || text::same(name, "build") || text::same(
        name,
        "target",
    ) || text::same(name, "node_modules"))
}

proof fn lemma_some_file_step(files: Seq<Seq<char>>, i: int, a: Seq<char>, b: Seq<char>)
    requires
        0 <= i < files.len(),
    ensures
        some_file(files.take(i + 1), a, b) == (some_file(files.take(i), a, b) || fspath::suffix(
            files[i],
        ) == Some(a) || fspath::suffix(files[i]) == Some(b)),
        some_file(files.take(i), a, b) ==> some_file(files, a, b),
{
    let s = files.take(i);
    let t = files.take(i + 1);
    assert(t[i] == files[i]);
    if some_file(s, a, b) {
        let k = choose|k: int|
            0 <= k < s.len() && (fspath::suffix(#[trigger] s[k]) == Some(a) || fspath::suffix(s[k])
                == Some(b));
        assert(t[k] == s[k]);
        assert(files[k] == s[k]);
    }
    if some_file(t, a, b) {
        let k = choose|k: int|
            0 <= k < t.len() && (fspath::suffix(#[trigger] t[k]) == Some(a) || fspath::suffix(t[k])
                == Some(b));
        if k < i {
            assert(s[k] == t[k]);
        }
    }
}

/// Finds the languages of the files.
pub fn detect_languages(files: &Vec<String>) -> (r: DetectedLanguages)
    ensures
        r == languages_of(chars::views(files@)),
{
    let ghost all = chars::views(files@);
    let mut found = DetectedLanguages::default();
    let mut i: usize = 0;
    assert(languages_of(all.take(0)) == found);
    while i < files.len()
        invariant
            i <= files.len(),
            all == chars::views(files@),
            found == languages_of(all.take(i as int)),
        decreases files.len() - i,
    {
        proof {
            lemma_some_file_step(all, i as int, "kt"@, "kts"@);
            lemma_some_file_step(all, i as int, "java"@, "java"@);
            lemma_some_file_step(all, i as int, "rs"@, "rs"@);
            assert(all[i as int] == files@[i as int]@);
        }
        if found.kotlin && found.java && found.rust {
            return found;
        }
        if let Some(ext) = fspath::extension(&files[i]) {
            if text::same(&ext, "kt") || text::same(&ext, "kts") {
                found.kotlin = true;
            }
            if text::same(&ext, "java") {
                found.java = true;
            }
            if text::same(&ext, "rs") {
                found.rust = true;
            }
        }
        proof {
            reveal_strlit("kt");
            reveal_strlit("kts");
            reveal_strlit("java");
            reveal_strlit("rs");
        }
        i += 1;
    }
    assert(all.take(i as int) =~= all);
    found
}

/// The text where it is wanted.
pub open spec fn where_wanted(wanted: bool, s: Seq<char>) -> Seq<char> {
    if wanted {
        s
    } else {
        Seq::empty()
    }
}

/// The starter configuration: a section for each language that was found, or
/// for all where none was.
pub open spec fn starter_config(langs: DetectedLanguages, license_header: bool) -> Seq<char> {
    let none = !langs.kotlin && !langs.java && !langs.rust;
    "# kempt configuration: https://github.com/ZacSweers/kempt\n# Run `kempt --help` to see all options.\n\n"@
        + where_wanted(
        langs.kotlin || none,
        "[ktfmt]\nversion = \""@ + STARTER_KTFMT_VERSION@ + "\"\n\n"@,
    ) + where_wanted(
        langs.java || none,
        "[gjf]\nversion = \""@ + STARTER_GJF_VERSION@ + "\"\n\n"@,
    ) + where_wanted(langs.rust || none, "[rustfmt]\n\n"@) + where_wanted(
        license_header,
        "[license-header]\nfile = \"config/license-header.txt\"\n\n"@,
    ) + "[hook]\nmode = \"format\"   # format | check\n"@
}

fn push_wanted(out: &mut String, wanted: bool, s: &str)
    ensures
        final(out)@ == old(out)@ + where_wanted(wanted, s@),
{
    if wanted {
        out.push_str(s);
    } else {
        assert(out@ + Seq::<char>::empty() =~= out@);
    }
}

/// Writes the starter configuration.
pub fn build_starter_config(langs: DetectedLanguages, license_header: bool) -> (r: String)
    ensures
        r@ == starter_config(langs, license_header),
{
    let none = !langs.kotlin && !langs.java && !langs.rust;
    let mut out =
        "# kempt configuration: https://github.com/ZacSweers/kempt\n# Run `kempt --help` to see all options.\n\n".to_owned();
    push_wanted(
        &mut out,
        langs.kotlin || none,
        &text::cat3("[ktfmt]\nversion = \"", STARTER_KTFMT_VERSION, "\"\n\n"),
    );
    push_wanted(
        &mut out,
        langs.java || none,
        &text::cat3("[gjf]\nversion = \"", STARTER_GJF_VERSION, "\"\n\n"),
    );
    push_wanted(&mut out, langs.rust || none, "[rustfmt]\n\n");
    push_wanted(
        &mut out,
        license_header,
        "[license-header]\nfile = \"config/license-header.txt\"\n\n",
    );
    out.push_str("[hook]\nmode = \"format\"   # format | check\n");
    out
}

/// Where the configuration of a directory is.
pub open spec fn config_path(dir: Seq<char>) -> Seq<char> {
    fspath::joined(dir, CONFIG_FILE@)
}

/// Where the starter template of a directory is.
pub open spec fn header_path(dir: Seq<char>) -> Seq<char> {
    fspath::joined(fspath::joined(dir, "config"@), "license-header.txt"@)
}

/// The files that are written into a directory: those of the configuration and,
/// where it is wanted, the template that do not exist.
pub open spec fn starter_files(
    dir: Seq<char>,
    langs: DetectedLanguages,
    license_header: bool,
    config_exists: bool,
    header_exists: bool,
) -> Seq<(Seq<char>, Seq<char>)> {
    (if config_exists {
        Seq::<(Seq<char>, Seq<char>)>::empty()
    } else {
        seq![(config_path(dir), starter_config(langs, license_header))]
    }) + (if header_exists || !license_header {
        Seq::<(Seq<char>, Seq<char>)>::empty()
    } else {
        seq![(header_path(dir), STARTER_HEADER@)]
    })
}

/// The files to be written into a directory: the starter configuration and, with
/// `license_header`, the starter template, so far as they do not exist.
pub fn run_init(
    target_dir: &str,
    langs: DetectedLanguages,
    license_header: bool,
    config_exists: bool,
    header_exists: bool,
) -> (r: Vec<FileWrite>)
    ensures
        crate::commands::write_views(r@) == starter_files(
            target_dir@,
            langs,
            license_header,
            config_exists,
            header_exists,
        ),
{
    let mut r: Vec<FileWrite> = Vec::new();
    if !config_exists {
        r.push(
            FileWrite {
                path: fspath::join(target_dir, CONFIG_FILE),
                content: build_starter_config(langs, license_header),
            },
        );
    }
    if license_header && !header_exists {
        r.push(
            FileWrite {
                path: fspath::join(&fspath::join(target_dir, "config"), "license-header.txt"),
                content: STARTER_HEADER.to_owned(),
            },
        );
    }
    assert(crate::commands::write_views(r@) =~= starter_files(
        target_dir@,
        langs,
        license_header,
        config_exists,
        header_exists,
    ));
    r
}

/// Where the starter files exist, nothing is written.
pub proof fn init_is_idempotent(dir: Seq<char>, langs: DetectedLanguages, license_header: bool)
    ensures
        starter_files(dir, langs, license_header, true, true).len() == 0,
        starter_files(dir, langs, false, true, false).len() == 0,
{
}

/// A language is there just where a file has one of its extensions.
pub proof fn languages_by_extension(files: Seq<Seq<char>>)
    ensures
        languages_of(files).kotlin <==> exists|i: int|
            0 <= i < files.len() && (fspath::suffix(#[trigger] files[i]) == Some("kt"@)
                || fspath::suffix(files[i]) == Some("kts"@)),
        languages_of(files).java <==> exists|i: int|
            0 <= i < files.len() && fspath::suffix(#[trigger] files[i]) == Some("java"@),
        languages_of(files).rust <==> exists|i: int|
            0 <= i < files.len() && fspath::suffix(#[trigger] files[i]) == Some("rs"@),
{
    if exists|i: int| 0 <= i < files.len() && fspath::suffix(#[trigger] files[i]) == Some("java"@) {
        let i = choose|i: int|
            0 <= i < files.len() && fspath::suffix(#[trigger] files[i]) == Some("java"@);
        assert(fspath::suffix(files[i]) == Some("java"@));
    }
    if exists|i: int| 0 <= i < files.len() && fspath::suffix(#[trigger] files[i]) == Some("rs"@) {
        let i = choose|i: int|
            0 <= i < files.len() && fspath::suffix(#[trigger] files[i]) == Some("rs"@);
        assert(fspath::suffix(files[i]) == Some("rs"@));
    }
}

/// The starter configuration has a section for each language that was found, or
/// for all three where none was, one for the header where it is wanted, and
/// always one for the hook.
pub proof fn starter_sections(langs: DetectedLanguages, license_header: bool)
    ensures
        starter_config(DetectedLanguages { kotlin: false, java: false, rust: false }, license_header)
            == starter_config(
            DetectedLanguages { kotlin: true, java: true, rust: true },
            license_header,
        ),
        ({
            let some = langs.kotlin || langs.java || langs.rust;
            let kotlin = "[ktfmt]\nversion = \""@ + STARTER_KTFMT_VERSION@ + "\"\n\n"@;
            let java = "[gjf]\nversion = \""@ + STARTER_GJF_VERSION@ + "\"\n\n"@;
            let rust = "[rustfmt]\n\n"@;
            let header = "[license-header]\nfile = \"config/license-header.txt\"\n\n"@;
            let hook = "[hook]\nmode = \"format\"   # format | check\n"@;
            let whole = starter_config(langs, license_header);
            &&& langs.kotlin || !some ==> chars::contains(whole, kotlin)
            &&& langs.java || !some ==> chars::contains(whole, java)
            &&& langs.rust || !some ==> chars::contains(whole, rust)
            &&& license_header ==> chars::contains(whole, header)
            &&& chars::ends_with(whole, hook)
            &&& some ==> whole.len()
                == "# kempt configuration: https://github.com/ZacSweers/kempt\n# Run `kempt --help` to see all options.\n\n"@.len()
                + (if langs.kotlin {
                kotlin.len()
            } else {
                0
            }) + (if langs.java {
                java.len()
            } else {
                0
            }) + (if langs.rust {
                rust.len()
            } else {
                0
            }) + (if license_header {
                header.len()
            } else {
                0
            }) + hook.len()
        }),
{
    let none = !langs.kotlin && !langs.java && !langs.rust;
    let top =
        "# kempt configuration: https://github.com/ZacSweers/kempt\n# Run `kempt --help` to see all options.\n\n"@;
    let kotlin = "[ktfmt]\nversion = \""@ + STARTER_KTFMT_VERSION@ + "\"\n\n"@;
    let java = "[gjf]\nversion = \""@ + STARTER_GJF_VERSION@ + "\"\n\n"@;
    let rust = "[rustfmt]\n\n"@;
    let header = "[license-header]\nfile = \"config/license-header.txt\"\n\n"@;
    let hook = "[hook]\nmode = \"format\"   # format | check\n"@;
    let k = where_wanted(langs.kotlin || none, kotlin);
    let j = where_wanted(langs.java || none, java);
    let r = where_wanted(langs.rust || none, rust);
    let h = where_wanted(license_header, header);
    let whole = starter_config(langs, license_header);
    assert(whole == top + k + j + r + h + hook);
    lemma_part_is_found(top, k, j + r + h + hook);
    assert(top + k + (j + r + h + hook) =~= whole);
    lemma_part_is_found(top + k, j, r + h + hook);
    assert(top + k + j + (r + h + hook) =~= whole);
    lemma_part_is_found(top + k + j, r, h + hook);
    assert(top + k + j + r + (h + hook) =~= whole);
    lemma_part_is_found(top + k + j + r, h, hook);
    assert(whole.skip(whole.len() - hook.len()) =~= hook);
}

proof fn lemma_part_is_found(a: Seq<char>, p: Seq<char>, b: Seq<char>)
    ensures
        chars::contains(a + p + b, p),
{
    let s = a + p + b;
    assert(s.subrange(a.len() as int, (a.len() + p.len()) as int) =~= p);
    assert(chars::occurs_at(s, p, a.len() as int));
}

/// The configuration is written just where there is none, and the template just
/// where it is wanted and there is none.
pub proof fn starter_files_are_never_overwritten(
    dir: Seq<char>,
    langs: DetectedLanguages,
    license_header: bool,
    config_exists: bool,
    header_exists: bool,
)
    ensures
        ({
            let files = starter_files(dir, langs, license_header, config_exists, header_exists);
            &&& !config_exists ==> files.contains(
                (fspath::joined(dir, CONFIG_FILE@), starter_config(langs, license_header)),
            )
            &&& license_header && !header_exists ==> files.contains(
                (
                    fspath::joined(fspath::joined(dir, "config"@), "license-header.txt"@),
                    STARTER_HEADER@,
                ),
            )
            &&& files.len() == (if config_exists {
                0int
            } else {
                1int
            }) + (if license_header && !header_exists {
                1int
            } else {
                0int
            })
        }),
{
    let files = starter_files(dir, langs, license_header, config_exists, header_exists);
    if !config_exists {
        assert(files[0] == (config_path(dir), starter_config(langs, license_header)));
    }
    if license_header && !header_exists {
        assert(files[files.len() - 1] == (header_path(dir), STARTER_HEADER@));
    }
}

} // verus!
