//! License headers.

use kempt::license::{
    has_header, insert_header, marker_for_template, render_header, SourceKind, HEADER_SCAN_LINES,
};

fn template() -> String {
    "// Copyright (C) ${YEAR} Zac Sweers\n// SPDX-License-Identifier: Apache-2.0\n".into()
}

#[test]
fn source_kind_from_extension() {
    assert_eq!(
        SourceKind::from_path("a/b/Foo.kt"),
        Some(SourceKind::Kotlin)
    );
    assert_eq!(
        SourceKind::from_path("build.gradle.kts"),
        Some(SourceKind::Kts)
    );
    assert_eq!(
        SourceKind::from_path("Foo.java"),
        Some(SourceKind::Java)
    );
    assert_eq!(
        SourceKind::from_path("src/lib.rs"),
        Some(SourceKind::Rust)
    );
    assert_eq!(SourceKind::from_path("README.md"), None);
}

#[test]
fn render_substitutes_year_and_ensures_trailing_newline() {
    let h = render_header(&template(), 2026);
    assert!(h.contains("2026"));
    assert!(!h.contains("${YEAR}"));
    assert!(h.ends_with('\n'));
}

#[test]
fn render_preserves_existing_trailing_newline() {
    let h = render_header(&template(), 2026);
    assert_eq!(h.matches('\n').count(), 2);
}

#[test]
fn render_adds_newline_if_template_lacks_one() {
    let h = render_header("// © ${YEAR}", 2026);
    assert_eq!(h, "// © 2026\n");
}

#[test]
fn marker_uses_longest_non_year_line() {
    let m = marker_for_template(&template());
    assert_eq!(m, "// SPDX-License-Identifier: Apache-2.0");
}

#[test]
fn marker_falls_back_when_every_line_has_year() {
    let m = marker_for_template("// (c) ${YEAR}\n// year ${YEAR} all rights\n");
    assert!(m.contains("all rights"), "got: {m}");
}

#[test]
fn marker_empty_template_returns_empty() {
    assert_eq!(marker_for_template(""), "");
}

#[test]
fn has_header_true_when_marker_in_first_lines() {
    let content = "// Copyright (C) 2024 Zac Sweers\n\
                   // SPDX-License-Identifier: Apache-2.0\n\
                   package foo\n";
    assert!(has_header(content, "SPDX-License-Identifier: Apache-2.0"));
}

#[test]
fn has_header_false_when_marker_absent() {
    assert!(!has_header(
        "package foo\n",
        "SPDX-License-Identifier: Apache-2.0"
    ));
}

#[test]
fn has_header_only_scans_first_n_lines() {
    let mut content = String::new();
    for _ in 0..(HEADER_SCAN_LINES + 5) {
        content.push_str("// noise\n");
    }
    content.push_str("// SPDX-License-Identifier: Apache-2.0\n");
    assert!(!has_header(&content, "SPDX-License-Identifier: Apache-2.0"));
}

#[test]
fn has_header_empty_marker_is_false() {
    assert!(!has_header("anything", ""));
}

#[test]
fn insert_header_kotlin_with_package() {
    let content = "package com.example\n\nclass Foo\n";
    let header = render_header(&template(), 2026);
    let out = insert_header(content, &header, SourceKind::Kotlin);
    assert!(out.starts_with("// Copyright (C) 2026"));
    assert!(out.contains("package com.example"));
}

#[test]
fn insert_header_kotlin_with_file_annotation() {
    let content = "@file:JvmName(\"X\")\npackage com.example\n";
    let header = render_header(&template(), 2026);
    let out = insert_header(content, &header, SourceKind::Kotlin);
    let header_then_rest: Vec<&str> = out.lines().collect();
    assert_eq!(header_then_rest[0], "// Copyright (C) 2026 Zac Sweers");
    assert_eq!(header_then_rest[2], "@file:JvmName(\"X\")");
}

#[test]
fn insert_header_kts_with_plugins() {
    let content = "plugins {\n  kotlin(\"jvm\")\n}\n";
    let header = render_header(&template(), 2026);
    let out = insert_header(content, &header, SourceKind::Kts);
    assert!(out.starts_with("// Copyright (C) 2026"));
    assert!(out.contains("plugins {"));
}

#[test]
fn insert_header_java_with_package() {
    let content = "package com.example;\n\nclass Foo {}\n";
    let header = render_header(&template(), 2026);
    let out = insert_header(content, &header, SourceKind::Java);
    assert!(out.starts_with("// Copyright (C) 2026"));
    assert!(out.contains("package com.example;"));
}

#[test]
fn insert_header_rust_with_inner_attribute() {
    let content = "#![allow(dead_code)]\n\npub fn answer() -> i32 {\n    1\n}\n";
    let header = render_header(&template(), 2026);
    let out = insert_header(content, &header, SourceKind::Rust);
    assert!(out.starts_with("// Copyright (C) 2026"));
    assert!(out.contains("#![allow(dead_code)]"));
}

#[test]
fn insert_header_rust_with_use_statement() {
    let content = "use std::path::Path;\n\nfn main() {}\n";
    let header = render_header(&template(), 2026);
    let out = insert_header(content, &header, SourceKind::Rust);
    assert!(out.starts_with("// Copyright (C) 2026"));
    assert!(out.contains("use std::path::Path;"));
}

#[test]
fn insert_header_replaces_pre_package_preamble() {
    // Mirrors bash behavior: comments before the delimiter line are
    // dropped when we insert.
    let content = "// stale leftover\n// more stale\npackage com.example\n";
    let header = render_header(&template(), 2026);
    let out = insert_header(content, &header, SourceKind::Kotlin);
    assert!(!out.contains("stale"));
    assert!(out.starts_with("// Copyright (C) 2026"));
}

#[test]
fn insert_header_no_delimiter_falls_back_to_prepend() {
    let content = "// just a snippet\nval x = 1\n";
    let header = render_header(&template(), 2026);
    let out = insert_header(content, &header, SourceKind::Kotlin);
    assert!(out.starts_with("// Copyright (C) 2026"));
    assert!(out.contains("val x = 1"));
}

#[test]
fn insert_header_empty_content() {
    let header = render_header(&template(), 2026);
    let out = insert_header("", &header, SourceKind::Kotlin);
    assert_eq!(out, header);
}

#[test]
fn header_is_put_before_the_first_line_of_code() {
    assert_eq!(
        insert_header("// old\npackage a\n\nclass A\n", "// new\n", SourceKind::Kotlin),
        "// new\npackage a\n\nclass A\n"
    );
    assert_eq!(
        insert_header("no code", "// new\n", SourceKind::Java),
        "// new\nno code"
    );
}

#[test]
fn inserted_header_is_recognized() {
    let header = render_header(&template(), 2026);
    let marker = marker_for_template(&template());
    for kind in [SourceKind::Kotlin, SourceKind::Kts, SourceKind::Java, SourceKind::Rust] {
        for content in ["", "package a\n", "use a;\n", "plugins {}\n", "text"] {
            assert!(has_header(&insert_header(content, &header, kind), &marker));
        }
    }
}

#[test]
fn years_of_any_length_are_written() {
    assert_eq!(render_header("${YEAR}${YEAR}", 7), "77\n");
    assert_eq!(render_header("$YEAR\n", 4294967295), "$YEAR\n");
    assert_eq!(render_header("${YEAR}\n", 4294967295), "4294967295\n");
}

#[test]
fn marker_of_equally_long_lines_is_the_last() {
    assert_eq!(marker_for_template("// aaaa\n// bbbb\n"), "// bbbb");
}

#[test]
fn a_second_header_replaces_the_first() {
    let text = "// old\npackage foo\n";
    let once = insert_header(text, "// one\n", SourceKind::Kotlin);
    assert_eq!(once, "// one\npackage foo\n");
    let twice = insert_header(&once, "// two\n", SourceKind::Kotlin);
    assert_eq!(twice, insert_header(text, "// two\n", SourceKind::Kotlin));
}

#[test]
fn no_slot_is_left_in_a_header() {
    let header = render_header("// ${YEAR} $${YEAR}{YEAR} ${YEAR}${YEAR}", 2026);
    assert_eq!(header, "// 2026 $2026{YEAR} 20262026\n");
    assert!(!header.contains("${YEAR}"));
}
