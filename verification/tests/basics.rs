//! Texts, paths, sizes and years, held against the standard library.

use kempt::calendar::{current_year, year_of};
use kempt::cli::{
    check_context_for_scope, exit_code, select_files, Conflict, Discovery, Selection,
};
use kempt::fspath::{self, PathSet};
use kempt::paths::Scope;
use kempt::summary::CheckContext;
use kempt::text;
use kempt::units::human_bytes;
use std::path::Path;
use std::time::{SystemTime, UNIX_EPOCH};

const TEXTS: [&str; 16] = [
    "", "a", " ", "\n", "a\nb", "a\r\nb\r\n", "\r", " a b ", "aa", "aXbXc", "X", "é日\u{1f600}",
    "\u{a0}x\u{3000}", "a\n\n", "\tb", "XX",
];

#[test]
fn white_space_is_what_unicode_says() {
    for n in 0..=0x10ffff {
        if let Some(c) = char::from_u32(n) {
            assert_eq!(text::is_whitespace(c), c.is_whitespace(), "{n:x}");
        }
    }
}

#[test]
fn texts_behave_like_strings() {
    for s in TEXTS {
        let std: Vec<&str> = s.lines().collect();
        assert_eq!(text::lines(s), std);
        assert_eq!(text::trim(s), s.trim());
        assert_eq!(text::trim_start(s), s.trim_start());
        assert_eq!(text::trim_end(s), s.trim_end());
        assert_eq!(text::words(s), s.split_whitespace().collect::<Vec<&str>>());
        assert_eq!(text::split(s, 'X'), s.split('X').collect::<Vec<&str>>());
        assert_eq!(text::trim_start_char(s, 'a'), s.trim_start_matches('a'));
        assert_eq!(text::byte_len(s), s.len());
        for p in ["a", "X", "b", "aa", "\n", "é"] {
            assert_eq!(text::starts_with(s, p), s.starts_with(p));
            assert_eq!(text::contains(s, p), s.contains(p));
            assert_eq!(text::replace(s, p, "-+"), s.replace(p, "-+"));
            assert_eq!(text::strip_prefix(s, p).as_deref(), s.strip_prefix(p));
            assert_eq!(text::find(s, p).is_some(), s.find(p).is_some());
        }
        for t in TEXTS {
            assert_eq!(text::same(s, t), s == t);
            assert_eq!(text::less(s, t), s < t);
        }
    }
}

#[test]
fn numbers_are_read_and_written_like_integers() {
    for s in ["", "0", "007", "+7", "-7", "+", "4294967295", "4294967296", "1a", " 1", "９"] {
        assert_eq!(text::parse(s, u32::MAX as u64), s.parse::<u32>().ok().map(u64::from), "{s}");
    }
    for s in ["18446744073709551615", "18446744073709551616", "99999999999999999999"] {
        assert_eq!(text::parse(s, u64::MAX), s.parse::<u64>().ok(), "{s}");
    }
    for n in [0, 9, 10, 1234567890, u64::MAX] {
        assert_eq!(text::decimal(n), n.to_string());
    }
    for n in [0, -1, i32::MIN, i32::MAX] {
        assert_eq!(text::signed_decimal(n), n.to_string());
    }
}

const PATHS: [&str; 20] = [
    "", "/", ".", "..", "a", "a/b", "/a/b", "a//b", "a/./b", "./a", "a/", "a/.", "a/..", ".git",
    "a.b.c", "a.", "/a", "a/b/c", "b", "a-b/c",
];

#[test]
fn paths_behave_like_paths() {
    for p in PATHS {
        let std = Path::new(p);
        assert_eq!(fspath::is_absolute(p), std.is_absolute());
        assert_eq!(fspath::file_name(p).as_deref(), std.file_name().and_then(|n| n.to_str()), "{p}");
        assert_eq!(fspath::extension(p).as_deref(), std.extension().and_then(|n| n.to_str()), "{p}");
        for q in PATHS {
            let other = Path::new(q);
            assert_eq!(fspath::join(p, q), std.join(other).to_str().unwrap(), "{p} {q}");
            assert_eq!(fspath::same_path(p, q), std == other, "{p} {q}");
            assert_eq!(fspath::less(p, q), std < other, "{p} {q}");
            assert_eq!(
                fspath::strip_prefix(p, q).as_deref().map(Path::new),
                std.strip_prefix(other).ok(),
                "{p} {q}"
            );
        }
    }
}

#[test]
fn path_sets_are_ordered_and_hold_each_path_once() {
    let mut set = PathSet::new();
    for p in ["b", "a/z", "a", "b/.", "a-b"] {
        set.insert(p);
    }
    assert!(set.contains("a//z") && !set.contains("c"));
    assert_eq!(set.len(), 4);
    assert_eq!(set.into_vec(), ["a", "a/z", "a-b", "b"]);
    let mut sorted = PATHS.to_vec();
    sorted.sort_by(|a, b| Path::new(a).cmp(Path::new(b)));
    let ours = fspath::sort(PATHS.iter().map(|p| p.to_string()).collect());
    for (a, b) in ours.iter().zip(sorted) {
        assert_eq!(Path::new(a), Path::new(b));
    }
}

#[test]
fn normal_paths_have_no_dots() {
    assert_eq!(fspath::normalize("/a/./b/../c").as_deref(), Some("/a/c"));
    assert_eq!(fspath::normalize("/.."), None);
}

#[test]
fn current_year_is_reasonable() {
    let secs = SystemTime::now().duration_since(UNIX_EPOCH).unwrap().as_secs();
    let y = current_year(secs);
    assert!((2026..2100).contains(&y), "got {y}");
}

#[test]
fn years_begin_at_midnight() {
    assert_eq!(current_year(0), 1970);
    assert_eq!(current_year(31_535_999), 1970);
    assert_eq!(current_year(31_536_000), 1971);
    // The last second of 1999 and the first of 2000, and the same for 2100.
    assert_eq!(current_year(946_684_799), 1999);
    assert_eq!(current_year(946_684_800), 2000);
    assert_eq!(year_of(4_102_444_799), 2099);
    assert_eq!(year_of(4_102_444_800), 2100);
    assert_eq!(year_of(4_133_980_800), 2101);
}

#[test]
fn human_bytes_scales_units() {
    assert_eq!(human_bytes(0), "0 B");
    assert_eq!(human_bytes(512), "512 B");
    assert_eq!(human_bytes(2048), "2.0 KiB");
    assert_eq!(human_bytes(5 * 1024 * 1024), "5.0 MiB");
    assert_eq!(human_bytes(3u64 * 1024 * 1024 * 1024), "3.0 GiB");
}

#[test]
fn sizes_round_like_floats() {
    let float = |n: u64| {
        let units = ["B", "KiB", "MiB", "GiB"];
        let (mut size, mut unit) = (n as f64, 0);
        while size >= 1024.0 && unit < units.len() - 1 {
            size /= 1024.0;
            unit += 1;
        }
        if unit == 0 {
            format!("{n} B")
        } else {
            format!("{size:.1} {}", units[unit])
        }
    };
    let mut n: u64 = 1;
    for _ in 0..4000 {
        for m in [n, n.wrapping_mul(1024), n >> 3, n.wrapping_add(51)] {
            assert_eq!(human_bytes(m), float(m), "{m}");
        }
        n = n.wrapping_mul(6364136223846793005).wrapping_add(1442695040888963407);
    }
    for m in [1023, 1024, 1075, 1076, 1177, 1048524, 1048525, 1048575, 1048576, 1280, u64::MAX] {
        assert_eq!(human_bytes(m), float(m), "{m}");
    }
}

#[test]
fn force_requires_an_explicit_target() {
    for (all, staged) in [(false, false), (true, false), (false, true)] {
        assert_eq!(
            select_files(all, staged, Discovery::Vcs, false, true),
            Err(Conflict::ForceWithoutTarget)
        );
    }
    assert_eq!(
        select_files(false, false, Discovery::Vcs, true, true),
        Ok(Selection::Targets { force: true })
    );
}

#[test]
fn scopes_exclude_each_other() {
    let pick = |all, staged, discovery, targets| select_files(all, staged, discovery, targets, false);
    assert_eq!(pick(false, false, Discovery::Vcs, false), Ok(Selection::All));
    assert_eq!(pick(true, false, Discovery::Vcs, false), Ok(Selection::All));
    assert_eq!(pick(false, true, Discovery::Vcs, false), Ok(Selection::Staged));
    assert_eq!(pick(false, false, Discovery::Walk, false), Ok(Selection::Walk));
    assert_eq!(pick(true, false, Discovery::Vcs, true), Err(Conflict::TargetsWithScope));
    assert_eq!(pick(true, true, Discovery::Vcs, false), Err(Conflict::AllWithStaged));
    assert_eq!(pick(true, false, Discovery::Walk, false), Err(Conflict::AllWithWalk));
    assert_eq!(pick(false, true, Discovery::Walk, false), Err(Conflict::StagedWithWalk));
    assert_eq!(Conflict::AllWithStaged.message(), "--all is incompatible with --staged");
    assert_eq!(exit_code(true), 1);
    assert_eq!(exit_code(false), 0);
}

#[test]
fn scopes_decide_what_is_suggested() {
    let files = vec!["a".to_string()];
    let scope = Selection::Targets { force: true }.scope(files.clone());
    assert_eq!(scope, Scope::Explicit { files, force: true });
    assert_eq!(check_context_for_scope(&scope), CheckContext::Explicit);
    assert_eq!(check_context_for_scope(&Scope::Walk), CheckContext::Walk);
    assert_eq!(check_context_for_scope(&Selection::Staged.scope(vec![])), CheckContext::Staged);
    assert_eq!(check_context_for_scope(&Selection::All.scope(vec![])), CheckContext::All);
}
