//! What is said of a run.

use crate::chars;
use crate::commands::FormatOutcome;
use crate::text;
use vstd::prelude::*;

verus! {

/// Where a check was started from, which decides the fix that is suggested.
#[derive(Debug, Clone, Copy, PartialEq, Eq, Structural)]
pub enum CheckContext {
    /// On all tracked files.
    All,
    /// On the staged files.
    Staged,
    /// On all files below the root.
    Walk,
    /// As the pre-commit hook.
    Hook,
    /// On targets that were named.
    Explicit,
}

impl CheckContext {
    pub open spec fn fix(self) -> Seq<char> {
        match self {
            CheckContext::All => "kempt format --all"@,
            CheckContext::Staged => "kempt format --staged"@,
            CheckContext::Hook => "kempt format --staged"@,
            CheckContext::Walk => "kempt format --discovery=walk"@,
            CheckContext::Explicit => "kempt format"@,
        }
    }

    fn fix_command(self) -> (r: &'static str)
        ensures
            r@ == self.fix(),
    {
        match self {
            CheckContext::All => "kempt format --all",
            CheckContext::Staged | CheckContext::Hook => "kempt format --staged",
            CheckContext::Walk => "kempt format --discovery=walk",
            CheckContext::Explicit => "kempt format",
        }
    }
}

/// Up to so many files, a command that names them is suggested too.
pub const MAX_PER_FILE_SUGGESTION: usize = 30;

/// A character for which a word has to be quoted in a shell.
pub open spec fn needs_quote(c: char) -> bool {
    chars::is_whitespace(c) || c == '\'' || c == '"' || c == '\\' || c == '$' || c == '`' || c
        == '*' || c == '?'
}

/// The text as one word of a shell: as it is where that is safe, and else in
/// single quotes, with each single quote in it written as `'\''`.
pub open spec fn shell_word(s: Seq<char>) -> Seq<char> {
    if s.len() > 0 && forall|i: int| 0 <= i < s.len() ==> !needs_quote(#[trigger] s[i]) {
        s
    } else {
        "'"@ + chars::replace(s, "'"@, "'\\''"@) + "'"@
    }
}

/// The path as one word of a shell.
pub fn shell_escape(p: &str) -> (r: String)
    ensures
        r@ == shell_word(p@),
{
    let v = text::chars_of(p);
    let mut quote = v.len() == 0;
    let mut i: usize = 0;
    while i < v.len()
        invariant
            i <= v.len(),
            v@ == p@,
            !quote ==> v@.len() > 0 && forall|j: int|
                0 <= j < i ==> !needs_quote(#[trigger] v@[j]),
            quote ==> v@.len() == 0 || exists|j: int|
                0 <= j < v@.len() && needs_quote(#[trigger] v@[j]),
        decreases v.len() - i,
    {
        let c = v[i];
        if text::is_whitespace(c) || c == '\'' || c == '"' || c == '\\' || c == '$' || c == '`' || c
            == '*' || c == '?' {
            assert(needs_quote(v@[i as int]));
            quote = true;
        }
        i += 1;
    }
    if !quote {
        return p.to_owned();
    }
    text::cat3("'", &text::replace(p, "'", "'\\''"), "'")
}

/// Each path as one word of a shell.
pub open spec fn shell_words(paths: Seq<Seq<char>>) -> Seq<Seq<char>> {
    paths.map_values(|p: Seq<char>| shell_word(p))
}

fn escape_all(paths: &Vec<String>) -> (r: Vec<String>)
    ensures
        chars::views(r@) == shell_words(chars::views(paths@)),
{
    let ghost all = chars::views(paths@);
    let mut r: Vec<String> = Vec::new();
    let mut i: usize = 0;
    while i < paths.len()
        invariant
            i <= paths.len(),
            all == chars::views(paths@),
            chars::views(r@) =~= shell_words(all.take(i as int)),
        decreases paths.len() - i,
    {
        let ghost before = chars::views(r@);
        let w = shell_escape(&paths[i]);
        assert(all[i as int] == paths@[i as int]@);
        r.push(w);
        assert(chars::views(r@) =~= before.push(w@));
        assert(shell_words(all.take(i + 1)) =~= shell_words(all.take(i as int)).push(w@));
        i += 1;
    }
    assert(all.take(i as int) =~= all);
    r
}

/// The number of files with its noun and verb: `1 file needs`, `2 files need`.
pub open spec fn counted(n: nat, before_noun: Seq<char>) -> Seq<char> {
    if n == 1 {
        chars::decimal(n) + before_noun + "file needs"@
    } else {
        chars::decimal(n) + before_noun + "files need"@
    }
}

fn count_phrase(n: usize, before_noun: &str) -> (r: String)
    ensures
        r@ == counted(n as nat, before_noun@),
{
    let words = if n == 1 {
        "file needs"
    } else {
        "files need"
    };
    text::cat3(&text::decimal(n as u64), before_noun, words)
}

/// The lines that sum up a check; none where it found nothing.
pub open spec fn check_summary(
    changed: Seq<Seq<char>>,
    has_errors: bool,
    ctx: CheckContext,
) -> Seq<Seq<char>> {
    let n = changed.len();
    if n == 0 && !has_errors {
        Seq::empty()
    } else if has_errors && n > 0 {
        seq![
            "kempt: "@ + counted(n, " "@) + " formatting; some have syntax errors."@,
            "  - Fix the syntax errors above"@,
            "  - Run `"@ + ctx.fix() + "` to format the rest"@,
        ]
    } else if has_errors {
        seq!["kempt: syntax errors prevent formatting (see above)."@]
    } else if ctx == CheckContext::Hook {
        seq![
            "kempt: "@ + counted(n, " staged "@) + " formatting."@,
            "Run `"@ + ctx.fix() + "` to format and re-stage, then commit again."@,
            "Or commit with `--no-verify` to bypass."@,
        ]
    } else if ctx == CheckContext::Explicit {
        seq![
            "kempt: "@ + counted(n, " "@)
                + " formatting. Re-run with `format` instead of `check` to apply."@,
        ]
    } else {
        let first = "kempt: "@ + counted(n, " "@) + " formatting. Run `"@ + ctx.fix()
            + "` to apply."@;
        if n <= MAX_PER_FILE_SUGGESTION {
            seq![
                first,
                "Or to format just these files:"@,
                "  kempt format "@ + chars::join(shell_words(changed), " "@),
            ]
        } else {
            seq![first]
        }
    }
}

/// The lines that sum up a check; none where it found nothing.
pub fn render_check_summary(outcome: &FormatOutcome, ctx: CheckContext) -> (r: Vec<String>)
    ensures
        chars::views(r@) == check_summary(
            outcome.changed@,
            outcome.parse_errors@.len() > 0,
            ctx,
        ),
{
    let mut lines: Vec<String> = Vec::new();
    let n = outcome.changed.len();
    let has_errors = outcome.has_parse_errors();
    let ghost want = check_summary(outcome.changed@, outcome.parse_errors@.len() > 0, ctx);
    if n == 0 && !has_errors {
        assert(chars::views(lines@) =~= want);
        return lines;
    }
    let cmd = ctx.fix_command();
    if has_errors && n > 0 {
        lines.push(
            text::cat3(
                "kempt: ",
                &count_phrase(n, " "),
                " formatting; some have syntax errors.",
            ),
        );
        lines.push("  - Fix the syntax errors above".to_owned());
        lines.push(text::cat3("  - Run `", cmd, "` to format the rest"));
    } else if has_errors {
        lines.push("kempt: syntax errors prevent formatting (see above).".to_owned());
    } else {
        match ctx {
            CheckContext::Hook => {
                lines.push(text::cat3("kempt: ", &count_phrase(n, " staged "), " formatting."));
                lines.push(
                    text::cat3(
                        "Run `",
                        cmd,
                        "` to format and re-stage, then commit again.",
                    ),
                );
                lines.push("Or commit with `--no-verify` to bypass.".to_owned());
            },
            CheckContext::Explicit => {
                lines.push(
                    text::cat3(
                        "kempt: ",
                        &count_phrase(n, " "),
                        " formatting. Re-run with `format` instead of `check` to apply.",
                    ),
                );
            },
            _ => {
                let mut first = text::cat4(
                    "kempt: ",
                    &count_phrase(n, " "),
                    " formatting. Run `",
                    cmd,
                );
                first.push_str("` to apply.");
                lines.push(first);
                if n <= MAX_PER_FILE_SUGGESTION {
                    let escaped = escape_all(outcome.changed.as_list());
                    lines.push("Or to format just these files:".to_owned());
                    lines.push(text::cat2("  kempt format ", &text::join(&escaped, " ")));
                }
            },
        }
    }
    assert(chars::views(lines@) =~= want);
    lines
}

/// A check is summed up exactly where it found something.
pub proof fn summary_iff_found(changed: Seq<Seq<char>>, has_errors: bool, ctx: CheckContext)
    ensures
        check_summary(changed, has_errors, ctx).len() == 0 <==> changed.len() == 0 && !has_errors,
{
}

/// The lines that report what a run changed.
pub open spec fn change_report(changed: Seq<Seq<char>>) -> Seq<Seq<char>> {
    if changed.len() == 0 {
        seq!["kempt: nothing to do"@]
    } else {
        seq!["kempt: changed "@ + chars::decimal(changed.len()) + " file(s)"@] + indented(changed)
    }
}

/// Each text, indented.
pub open spec fn indented(texts: Seq<Seq<char>>) -> Seq<Seq<char>> {
    texts.map_values(|t: Seq<char>| "  "@ + t)
}

fn indent_all(texts: &Vec<String>) -> (r: Vec<String>)
    ensures
        chars::views(r@) == indented(chars::views(texts@)),
{
    let ghost all = chars::views(texts@);
    let mut r: Vec<String> = Vec::new();
    let mut i: usize = 0;
    while i < texts.len()
        invariant
            i <= texts.len(),
            all == chars::views(texts@),
            chars::views(r@) =~= indented(all.take(i as int)),
        decreases texts.len() - i,
    {
        let ghost before = chars::views(r@);
        let w = text::cat2("  ", &texts[i]);
        assert(all[i as int] == texts@[i as int]@);
        r.push(w);
        assert(chars::views(r@) =~= before.push(w@));
        assert(indented(all.take(i + 1)) =~= indented(all.take(i as int)).push(w@));
        i += 1;
    }
    assert(all.take(i as int) =~= all);
    r
}

/// The lines that report what a run changed.
pub fn report_changes(outcome: &FormatOutcome) -> (r: Vec<String>)
    ensures
        chars::views(r@) == change_report(outcome.changed@),
{
    let n = outcome.changed.len();
    let mut lines: Vec<String> = Vec::new();
    if n == 0 {
        lines.push("kempt: nothing to do".to_owned());
        assert(chars::views(lines@) =~= change_report(outcome.changed@));
        return lines;
    }
    lines.push(text::cat3("kempt: changed ", &text::decimal(n as u64), " file(s)"));
    let ghost head = chars::views(lines@);
    text::append(&mut lines, &indent_all(outcome.changed.as_list()));
    assert(head =~= seq!["kempt: changed "@ + chars::decimal(n as nat) + " file(s)"@]);
    lines
}

/// The lines that report what was pruned from the cache.
pub fn report_pruned(removed: &Vec<String>) -> (r: Vec<String>)
    ensures
        chars::views(r@) == if removed@.len() == 0 {
            seq!["kempt: nothing to prune"@]
        } else {
            seq!["removed "@ + chars::decimal(removed@.len()) + " file(s):"@] + indented(
                chars::views(removed@),
            )
        },
{
    let mut lines: Vec<String> = Vec::new();
    if removed.len() == 0 {
        lines.push("kempt: nothing to prune".to_owned());
        assert(chars::views(lines@) =~= seq!["kempt: nothing to prune"@]);
        return lines;
    }
    lines.push(text::cat3("removed ", &text::decimal(removed.len() as u64), " file(s):"));
    let ghost head = chars::views(lines@);
    text::append(&mut lines, &indent_all(removed));
    assert(head =~= seq!["removed "@ + chars::decimal(removed@.len()) + " file(s):"@]);
    lines
}

/// Each way to check has the command that formats what it checked; the hook's is
/// that of the staged files.
pub proof fn fixes_by_context(ctx: CheckContext)
    ensures
        ctx is All ==> ctx.fix() == "kempt format --all"@,
        ctx is Staged || ctx is Hook ==> ctx.fix() == "kempt format --staged"@,
        ctx is Walk ==> ctx.fix() == "kempt format --discovery=walk"@,
        ctx is Explicit ==> ctx.fix() == "kempt format"@,
{
}

/// A text of plain characters is a word of a shell as it is. Any other stands in
/// single quotes, and where it holds one itself, up to there it is a word in
/// single quotes, the quote follows behind a backslash, and the rest is quoted
/// again.
pub proof fn words_are_quoted_where_needed(a: Seq<char>, b: Seq<char>)
    ensures
        shell_word(Seq::empty()) == seq!['\'', '\''],
        a.len() > 0 && !a.contains('\'') && (exists|i: int|
            0 <= i < a.len() && (chars::is_whitespace(#[trigger] a[i]) || a[i] == '"' || a[i]
                == '\\' || a[i] == '$' || a[i] == '`' || a[i] == '*' || a[i] == '?')) ==> shell_word(
            a,
        ) == seq!['\''] + a + seq!['\''],
        a.len() > 0 && (forall|i: int|
            0 <= i < a.len() ==> !chars::is_whitespace(#[trigger] a[i]) && a[i] != '\'' && a[i]
                != '"' && a[i] != '\\' && a[i] != '$' && a[i] != '`' && a[i] != '*' && a[i] != '?')
            ==> shell_word(a) == a,
        !a.contains('\'') ==> shell_word(a.push('\'') + b) == seq!['\''] + a + seq![
            '\'',
            '\\',
            '\'',
        ] + (if b.len() > 0 && shell_word(b) == b {
            seq!['\''] + b + seq!['\'']
        } else {
            shell_word(b)
        }),
{
    reveal_strlit("'");
    reveal_strlit("'\\''");
    let q = "'"@;
    let e = "'\\''"@;
    assert(q =~= seq!['\'']);
    assert(e =~= seq!['\'', '\\', '\'', '\'']);
    let none = Seq::<char>::empty();
    assert(shell_word(none) =~= seq!['\'', '\'']);
    if !a.contains('\'') {
        assert(!chars::contains(a, q)) by {
            if chars::contains(a, q) {
                let i = choose|i: int| chars::occurs_at(a, q, i);
                assert(a.subrange(i, i + 1)[0] == '\'');
                assert(a[i] == '\'');
            }
        }
        chars::lemma_replace_absent(a, q, e);
        if exists|i: int|
            0 <= i < a.len() && (chars::is_whitespace(#[trigger] a[i]) || a[i] == '"' || a[i]
                == '\\' || a[i] == '$' || a[i] == '`' || a[i] == '*' || a[i] == '?') {
            let i = choose|i: int|
                0 <= i < a.len() && (chars::is_whitespace(#[trigger] a[i]) || a[i] == '"' || a[i]
                    == '\\' || a[i] == '$' || a[i] == '`' || a[i] == '*' || a[i] == '?');
            assert(needs_quote(a[i]));
            assert(shell_word(a) =~= seq!['\''] + a + seq!['\'']);
        }
        let s = a.push('\'') + b;
        assert(s[a.len() as int] == '\'');
        assert(needs_quote(s[a.len() as int]));
        lemma_replace_quote(a, b, q, e);
        let rest = chars::replace(b, q, e);
        assert(shell_word(s) =~= seq!['\''] + a + seq!['\'', '\\', '\''] + (seq!['\''] + rest
            + seq!['\'']));
        if b.len() > 0 && forall|i: int| 0 <= i < b.len() ==> !needs_quote(#[trigger] b[i]) {
            assert(shell_word(b) == b);
            assert(!chars::contains(b, q)) by {
                if chars::contains(b, q) {
                    let i = choose|i: int| chars::occurs_at(b, q, i);
                    assert(b.subrange(i, i + 1)[0] == '\'');
                    assert(needs_quote(b[i]));
                }
            }
            chars::lemma_replace_absent(b, q, e);
        } else {
            assert(shell_word(b) == q + rest + q);
            lemma_replace_grows(b, q, e);
            assert(shell_word(b).len() == rest.len() + 2);
            assert(seq!['\''] + rest + seq!['\''] =~= q + rest + q);
        }
    }
}

proof fn lemma_replace_grows(s: Seq<char>, q: Seq<char>, e: Seq<char>)
    requires
        q.len() <= e.len(),
    ensures
        chars::replace(s, q, e).len() >= s.len(),
    decreases s.len(),
{
    if q.len() > 0 && s.len() >= q.len() {
        if chars::starts_with(s, q) {
            lemma_replace_grows(s.skip(q.len() as int), q, e);
        } else {
            lemma_replace_grows(s.skip(1), q, e);
        }
    }
}

proof fn lemma_replace_quote(a: Seq<char>, b: Seq<char>, q: Seq<char>, e: Seq<char>)
    requires
        !a.contains('\''),
        q == seq!['\''],
    ensures
        chars::replace(a.push('\'') + b, q, e) == a + e + chars::replace(b, q, e),
    decreases a.len(),
{
    let s = a.push('\'') + b;
    if a.len() == 0 {
        assert(s.take(1) =~= q);
        assert(s.skip(1) =~= b);
        assert(a + e =~= e);
    } else {
        assert(a.contains(a[0]));
        assert(s[0] == a[0]);
        if chars::starts_with(s, q) {
            assert(s.take(1)[0] == a[0]);
        }
        chars::lemma_replace_step(s, q, e);
        let t = a.skip(1);
        assert(s.skip(1) =~= t.push('\'') + b);
        assert(!t.contains('\'')) by {
            if t.contains('\'') {
                let k = choose|k: int| 0 <= k < t.len() && t[k] == '\'';
                assert(a[k + 1] == '\'');
            }
        }
        lemma_replace_quote(t, b, q, e);
        assert(seq![a[0]] + (t + e + chars::replace(b, q, e)) =~= a + e + chars::replace(b, q, e));
    }
}

/// One file needs, several files need; the number stands first.
pub proof fn files_are_counted(n: nat, before_noun: Seq<char>)
    ensures
        counted(n, before_noun) == chars::decimal(n) + before_noun + (if n == 1 {
            "file needs"@
        } else {
            "files need"@
        }),
{
}

/// A check that found files to format and no syntax error counts them and says
/// how to format them: the hook that they are staged again, and all but an
/// explicit check by their command and, for up to thirty files, by a command
/// that names each of them. Where syntax errors were found too, they are to be
/// fixed first.
pub proof fn summaries_by_context(changed: Seq<Seq<char>>, ctx: CheckContext)
    requires
        changed.len() > 0,
    ensures
        check_summary(Seq::empty(), true, ctx) == seq![
            "kempt: syntax errors prevent formatting (see above)."@,
        ],
        check_summary(changed, true, ctx) == seq![
            "kempt: "@ + counted(changed.len(), " "@) + " formatting; some have syntax errors."@,
            "  - Fix the syntax errors above"@,
            "  - Run `"@ + ctx.fix() + "` to format the rest"@,
        ],
        ctx is Hook ==> check_summary(changed, false, ctx) == seq![
            "kempt: "@ + counted(changed.len(), " staged "@) + " formatting."@,
            "Run `"@ + ctx.fix() + "` to format and re-stage, then commit again."@,
            "Or commit with `--no-verify` to bypass."@,
        ],
        ctx is Explicit ==> check_summary(changed, false, ctx) == seq![
            "kempt: "@ + counted(changed.len(), " "@)
                + " formatting. Re-run with `format` instead of `check` to apply."@,
        ],
        ctx is All || ctx is Staged || ctx is Walk ==> ({
            let lines = check_summary(changed, false, ctx);
            &&& lines.len() == if changed.len() <= 30 {
                3nat
            } else {
                1nat
            }
            &&& lines[0] == "kempt: "@ + counted(changed.len(), " "@) + " formatting. Run `"@
                + ctx.fix() + "` to apply."@
            &&& changed.len() <= 30 ==> lines[1] == "Or to format just these files:"@
            &&& changed.len() <= 30 ==> lines[2] == "  kempt format "@ + chars::join(
                changed.map_values(|p: Seq<char>| shell_word(p)),
                " "@,
            )
        }),
{
}

/// A run that changed nothing says so; any other counts the files it changed and
/// names each on a line of its own, indented.
pub proof fn changes_are_named(changed: Seq<Seq<char>>, k: int)
    ensures
        change_report(Seq::empty()) == seq!["kempt: nothing to do"@],
        changed.len() > 0 ==> change_report(changed).len() == changed.len() + 1
            && change_report(changed)[0] == "kempt: changed "@ + chars::decimal(changed.len())
            + " file(s)"@,
        0 <= k < changed.len() ==> change_report(changed)[k + 1] == seq![' ', ' '] + changed[k],
{
    reveal_strlit("  ");
    assert("  "@ =~= seq![' ', ' ']);
}

} // verus!
