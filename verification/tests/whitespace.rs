//! Whitespace passes.

use kempt::whitespace::{diagnose, fix, Options};

fn both() -> Options {
    Options {
        strip_trailing: true,
        final_newline: true,
    }
}

fn only_strip() -> Options {
    Options {
        strip_trailing: true,
        final_newline: false,
    }
}

fn only_newline() -> Options {
    Options {
        strip_trailing: false,
        final_newline: true,
    }
}

// --- diagnose ---

#[test]
fn diagnose_clean_file() {
    assert!(!diagnose("hello\nworld\n", both()).any());
}

#[test]
fn diagnose_trailing_spaces() {
    let i = diagnose("hello   \nworld\n", both());
    assert!(i.trailing_whitespace);
    assert!(!i.missing_final_newline);
}

#[test]
fn diagnose_trailing_tabs() {
    assert!(diagnose("x\t\n", both()).trailing_whitespace);
}

#[test]
fn diagnose_trailing_cr() {
    assert!(diagnose("x\r\ny\n", both()).trailing_whitespace);
}

#[test]
fn diagnose_missing_final_newline() {
    let i = diagnose("hello", both());
    assert!(i.missing_final_newline);
    assert!(!i.trailing_whitespace);
}

#[test]
fn diagnose_empty_is_clean() {
    assert!(!diagnose("", both()).any());
}

#[test]
fn diagnose_disabled_pass_does_not_flag_issues() {
    // Trailing whitespace exists, but the strip-trailing pass is off.
    assert!(!diagnose("foo   \n", only_newline()).trailing_whitespace);
    // Missing newline, but the final-newline pass is off.
    assert!(!diagnose("foo", only_strip()).missing_final_newline);
}

// --- fix ---

#[test]
fn fix_strips_trailing_spaces() {
    assert_eq!(fix("hello   \nworld\n", both()), "hello\nworld\n");
}

#[test]
fn fix_strips_mixed_whitespace() {
    assert_eq!(fix("a \t\nb \r\n", both()), "a\nb\n");
}

#[test]
fn fix_adds_missing_final_newline() {
    assert_eq!(fix("hello", both()), "hello\n");
}

#[test]
fn fix_idempotent_on_clean_input() {
    let clean = "package foo\n\nclass Bar\n";
    assert_eq!(fix(clean, both()), clean);
}

#[test]
fn fix_empty_stays_empty() {
    assert_eq!(fix("", both()), "");
}

#[test]
fn fix_does_not_collapse_blank_lines() {
    assert_eq!(fix("a\n\nb\n", both()), "a\n\nb\n");
}

#[test]
fn fix_preserves_indentation() {
    assert_eq!(fix("  hello   \n", both()), "  hello\n");
}

#[test]
fn fix_strips_whitespace_only_line_to_empty() {
    assert_eq!(fix("a\n   \nb\n", both()), "a\n\nb\n");
}

#[test]
fn fix_only_strip_preserves_no_final_newline() {
    // strip-trailing on, final-newline off → leave the no-newline state.
    assert_eq!(fix("hello   ", only_strip()), "hello");
}

#[test]
fn fix_only_strip_preserves_existing_final_newline() {
    assert_eq!(fix("hello   \n", only_strip()), "hello\n");
}

#[test]
fn fix_only_newline_does_not_strip_trailing() {
    assert_eq!(fix("hello   ", only_newline()), "hello   \n");
}

#[test]
fn fix_both_disabled_is_identity() {
    let opts = Options::default();
    let s = "noisy   \nstuff";
    assert_eq!(fix(s, opts), s);
}

#[test]
fn fixed_text_has_no_issue_and_stays() {
    for opts in [both(), only_strip(), only_newline(), Options::default()] {
        for text in ["", "\n", " ", "a", "a \n\t", "a\r\nb\u{a0}\n", "x\n\n", "  \n \n"] {
            let fixed = fix(text, opts);
            assert!(!diagnose(&fixed, opts).any());
            assert_eq!(fix(&fixed, opts), fixed);
            assert_eq!(diagnose(text, opts).any(), fixed != text);
        }
    }
}

#[test]
fn fix_ends_text_with_exactly_one_newline() {
    assert_eq!(fix("a\n\n", both()), "a\n");
    assert_eq!(fix("a\n  ", both()), "a\n");
    assert_eq!(fix("a\n\nb\n \n\t\r\n", both()), "a\n\nb\n");
    assert_eq!(fix("a \n\n\n", only_newline()), "a \n");
    assert_eq!(fix("a\n\n", only_strip()), "a\n\n");
    // Nothing but line ends becomes one line end.
    assert_eq!(fix("\n\n\n", only_newline()), "\n");
    assert_eq!(fix("   ", both()), "\n");
}

#[test]
fn diagnose_surplus_final_newlines() {
    assert!(diagnose("a\n\n", both()).missing_final_newline);
    assert!(!diagnose("a\n\n", only_strip()).any());
    assert!(!diagnose("a\n\nb\n", both()).any());
}

#[test]
fn default_options_of_a_configuration_are_both_on() {
    let opts = Options::from(&kempt::config::Whitespace::default());
    assert!(opts.strip_trailing && opts.final_newline);
}
