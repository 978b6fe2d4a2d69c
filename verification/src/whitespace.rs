//! Trailing whitespace and final newline normalization.
//!
//! The two passes are independent: stripping trailing blanks from each line,
//! and ensuring that a non-empty text ends with exactly one newline. The caller
//! passes [`Options`] selecting which pass to run.

use crate::chars;
use crate::config::Whitespace;
use crate::text;
use vstd::prelude::*;

verus! {

/// Selection of the passes; both are off by default.
#[derive(Debug, Clone, Copy, PartialEq, Eq)]
pub struct Options {
    pub strip_trailing: bool,
    pub final_newline: bool,
}

impl From<&Whitespace> for Options {
    fn from(c: &Whitespace) -> (r: Self) {
        Options { strip_trailing: c.strip_trailing, final_newline: c.final_newline }
    }
}

impl vstd::std_specs::convert::FromSpecImpl<&Whitespace> for Options {
    open spec fn obeys_from_spec() -> bool {
        true
    }

    open spec fn from_spec(c: &Whitespace) -> Self {
        Options { strip_trailing: c.strip_trailing, final_newline: c.final_newline }
    }
}

impl Default for Options {
    fn default() -> (r: Self)
        ensures
            r == (Options { strip_trailing: false, final_newline: false }),
    {
        Options { strip_trailing: false, final_newline: false }
    }
}

/// What the enabled passes would change.
#[derive(Debug, Clone, Copy, PartialEq, Eq)]
pub struct Issues {
    pub trailing_whitespace: bool,
    /// The text does not end with exactly one line feed.
    pub missing_final_newline: bool,
}

impl Default for Issues {
    fn default() -> (r: Self)
        ensures
            r == (Issues { trailing_whitespace: false, missing_final_newline: false }),
    {
        Issues { trailing_whitespace: false, missing_final_newline: false }
    }
}

impl Issues {
    /// Whether there is anything to report.
    pub fn any(self) -> (r: bool)
        ensures
            r == (self.trailing_whitespace || self.missing_final_newline),
    {
        self.trailing_whitespace || self.missing_final_newline
    }
}

/// A character that does not belong at the end of a line.
pub open spec fn is_blank(c: char) -> bool {
    c == ' ' || c == '\t' || c == '\r'
}

/// Some blank stands right before a line feed or at the end of the text.
pub open spec fn has_trailing_blank(s: Seq<char>) -> bool {
    exists|i: int|
        0 <= i < s.len() && is_blank(#[trigger] s[i]) && (i + 1 == s.len() || s[i + 1] == '\n')
}

/// Nothing but blanks stands between here and the end of the line.
pub open spec fn blank_to_eol(s: Seq<char>) -> bool
    decreases s.len(),
{
    s.len() == 0 || s[0] == '\n' || (is_blank(s[0]) && blank_to_eol(s.skip(1)))
}

/// The text without the blanks that end a line.
pub open spec fn stripped(s: Seq<char>) -> Seq<char>
    decreases s.len(),
{
    if s.len() == 0 {
        s
    } else if is_blank(s[0]) && blank_to_eol(s.skip(1)) {
        stripped(s.skip(1))
    } else {
        seq![s[0]] + stripped(s.skip(1))
    }
}

/// The text without the line feeds that end it.
pub open spec fn unended(s: Seq<char>) -> Seq<char>
    decreases s.len(),
{
    if chars::ends_with_char(s, '\n') {
        unended(s.drop_last())
    } else {
        s
    }
}

/// The text ends with a line feed, and with no second one before it.
pub open spec fn ends_with_one_newline(s: Seq<char>) -> bool {
    chars::ends_with_char(s, '\n') && !chars::ends_with_char(s.drop_last(), '\n')
}

/// The text after the enabled passes. One of nothing but line ends becomes a
/// single line feed under the final-newline pass.
pub open spec fn fixed(s: Seq<char>, opts: Options) -> Seq<char> {
    let body = if opts.strip_trailing {
        stripped(s)
    } else {
        s
    };
    if opts.final_newline && s.len() > 0 {
        unended(body).push('\n')
    } else {
        body
    }
}

/// The issues of a text under the enabled passes.
pub open spec fn issues(s: Seq<char>, opts: Options) -> Issues {
    Issues {
        trailing_whitespace: opts.strip_trailing && has_trailing_blank(s),
        missing_final_newline: opts.final_newline && s.len() > 0 && !ends_with_one_newline(s),
    }
}

/// Detects the issues that the enabled passes would fix. A disabled pass is
/// reported as `false` whatever the text holds.
pub fn diagnose(content: &str, opts: Options) -> (r: Issues)
    ensures
        r == issues(content@, opts),
{
    Issues {
        trailing_whitespace: opts.strip_trailing && has_trailing_whitespace(content),
        missing_final_newline: opts.final_newline && !content.is_empty() && !has_one_final_newline(
            content,
        ),
    }
}

fn has_one_final_newline(content: &str) -> (r: bool)
    ensures
        r == ends_with_one_newline(content@),
{
    let v = text::chars_of(content);
    let n: usize = v.len();
    n > 0 && v[n - 1] == '\n' && (n == 1 || v[n - 2] != '\n')
}

fn has_trailing_whitespace(content: &str) -> (r: bool)
    ensures
        r == has_trailing_blank(content@),
{
    let v = text::chars_of(content);
    let mut i: usize = 0;
    while i < v.len()
        invariant
            i <= v.len(),
            v@ == content@,
            forall|j: int|
                0 <= j < i && is_blank(#[trigger] v@[j]) ==> j + 1 < v@.len() && v@[j + 1] != '\n',
        decreases v.len() - i,
    {
        if (v[i] == ' ' || v[i] == '\t' || v[i] == '\r') && (i + 1 == v.len() || v[i + 1] == '\n') {
            assert(is_blank(v@[i as int]));
            return true;
        }
        i += 1;
    }
    false
}

/// Applies the enabled passes. Empty text stays empty whatever they are; with
/// the final-newline pass, any other text comes out with exactly one line feed at
/// its end, so that one of nothing but line ends becomes a single line feed.
pub fn fix(content: &str, opts: Options) -> (r: String)
    ensures
        r@ == fixed(content@, opts),
        opts.final_newline && content@.len() > 0 ==> ends_with_one_newline(r@),
        content@.len() == 0 ==> r@.len() == 0,
{
    proof {
        fix_ends_with_one_newline(content@, opts);
    }
    let body = if opts.strip_trailing {
        strip(content)
    } else {
        content.to_owned()
    };
    if opts.final_newline && !content.is_empty() {
        end_with_newline(&body)
    } else {
        body
    }
}

/// The text with exactly one line feed at its end.
fn end_with_newline(content: &str) -> (r: String)
    ensures
        r@ == unended(content@).push('\n'),
{
    let v = text::chars_of(content);
    let mut n: usize = v.len();
    assert(v@.take(n as int) =~= v@);
    while n > 0 && v[n - 1] == '\n'
        invariant
            n <= v.len(),
            v@ == content@,
            unended(v@.take(n as int)) == unended(content@),
        decreases n,
    {
        assert(v@.take(n as int).drop_last() =~= v@.take(n - 1));
        n -= 1;
    }
    let mut out = text::slice(&v, 0, n);
    assert(v@.subrange(0, n as int) =~= v@.take(n as int));
    out.push('\n');
    out
}

fn strip(content: &str) -> (r: String)
    ensures
        r@ == stripped(content@),
{
    let v = text::chars_of(content);
    let mut back: Vec<char> = Vec::new();
    let mut at_eol = true;
    let mut i: usize = v.len();
    assert(content@.skip(v.len() as int) =~= Seq::<char>::empty());
    assert(back@.reverse() =~= Seq::<char>::empty());
    while i > 0
        invariant
            i <= v.len(),
            v@ == content@,
            at_eol == blank_to_eol(content@.skip(i as int)),
            back@.reverse() == stripped(content@.skip(i as int)),
        decreases i,
    {
        i -= 1;
        let c = v[i];
        let blank = c == ' ' || c == '\t' || c == '\r';
        let ghost t = content@.skip(i as int);
        let ghost before = back@;
        assert(t.skip(1) =~= content@.skip(i + 1));
        assert(t[0] == c);
        if !(blank && at_eol) {
            back.push(c);
            assert(before.push(c).reverse() =~= seq![c] + before.reverse());
        }
        at_eol = c == '\n' || (blank && at_eol);
    }
    assert(content@.skip(0) =~= content@);
    let mut out = String::new();
    let mut k: usize = back.len();
    while k > 0
        invariant
            k <= back.len(),
            out@ == back@.reverse().take(back@.len() - k),
        decreases k,
    {
        k -= 1;
        assert(back@.reverse().take(back@.len() - k) =~= back@.reverse().take(
            back@.len() - k - 1,
        ).push(back@[k as int]));
        out.push(back[k]);
    }
    assert(back@.reverse().take(back@.len() as int) =~= back@.reverse());
    out
}

/// [`has_trailing_blank`] looked at from the front of the text.
proof fn lemma_trailing_blank_step(s: Seq<char>)
    requires
        s.len() > 0,
    ensures
        has_trailing_blank(s) == ((is_blank(s[0]) && (s.len() == 1 || s[1] == '\n'))
            || has_trailing_blank(s.skip(1))),
{
    let t = s.skip(1);
    if has_trailing_blank(s) {
        let i = choose|i: int|
            0 <= i < s.len() && is_blank(#[trigger] s[i]) && (i + 1 == s.len() || s[i + 1] == '\n');
        if i > 0 {
            assert(t[i - 1] == s[i]);
        }
    }
    if has_trailing_blank(t) {
        let i = choose|i: int|
            0 <= i < t.len() && is_blank(#[trigger] t[i]) && (i + 1 == t.len() || t[i + 1] == '\n');
        assert(s[i + 1] == t[i]);
    }
}

/// Where a line begins with blanks only, its stripped form begins with the end
/// of the line.
proof fn lemma_stripped_head(s: Seq<char>)
    ensures
        blank_to_eol(s) <==> (stripped(s).len() == 0 || stripped(s)[0] == '\n'),
    decreases s.len(),
{
    if s.len() > 0 {
        lemma_stripped_head(s.skip(1));
    }
}

/// Stripping leaves no blank at the end of a line.
proof fn lemma_stripped_clean(s: Seq<char>)
    ensures
        !has_trailing_blank(stripped(s)),
    decreases s.len(),
{
    if s.len() > 0 {
        let t = s.skip(1);
        lemma_stripped_clean(t);
        if !(is_blank(s[0]) && blank_to_eol(t)) {
            lemma_stripped_head(t);
            let r = stripped(s);
            assert(r.skip(1) =~= stripped(t));
            lemma_trailing_blank_step(r);
        }
    }
}

/// A text without blanks at the end of its lines is its own stripped form.
proof fn lemma_stripped_identity(s: Seq<char>)
    requires
        !has_trailing_blank(s),
    ensures
        stripped(s) == s,
    decreases s.len(),
{
    if s.len() > 0 {
        let t = s.skip(1);
        lemma_trailing_blank_step(s);
        lemma_stripped_identity(t);
        lemma_stripped_head(t);
        assert(seq![s[0]] + t =~= s);
    }
}

/// Adding a line feed to a stripped text leaves no blank at the end of a line.
proof fn lemma_push_newline_clean(s: Seq<char>)
    requires
        !has_trailing_blank(s),
    ensures
        !has_trailing_blank(s.push('\n')),
{
    let r = s.push('\n');
    if has_trailing_blank(r) {
        let i = choose|i: int|
            0 <= i < r.len() && is_blank(#[trigger] r[i]) && (i + 1 == r.len() || r[i + 1] == '\n');
        assert(r[i] == s[i]);
    }
}

/// What ends a text without its final line feeds is no line feed, and what they
/// leave is the beginning of the text.
proof fn lemma_unended(s: Seq<char>)
    ensures
        !chars::ends_with_char(unended(s), '\n'),
        unended(s).len() <= s.len(),
        unended(s) == s.take(unended(s).len() as int),
        forall|i: int| unended(s).len() <= i < s.len() ==> #[trigger] s[i] == '\n',
    decreases s.len(),
{
    if chars::ends_with_char(s, '\n') {
        let t = s.drop_last();
        lemma_unended(t);
        let n = unended(t).len() as int;
        assert(t.take(n) =~= s.take(n));
        assert forall|i: int| n <= i < s.len() implies #[trigger] s[i] == '\n' by {
            if i < t.len() {
                assert(t[i] == s[i]);
            }
        }
    } else {
        assert(s.take(s.len() as int) =~= s);
    }
}

/// Taking final line feeds away uncovers no blank that was not at the end of a
/// line before.
proof fn lemma_unended_clean(s: Seq<char>)
    requires
        !has_trailing_blank(s),
    ensures
        !has_trailing_blank(unended(s)),
{
    lemma_unended(s);
    let r = unended(s);
    if has_trailing_blank(r) {
        let i = choose|i: int|
            0 <= i < r.len() && is_blank(#[trigger] r[i]) && (i + 1 == r.len() || r[i + 1] == '\n');
        assert(s[i] == r[i]);
        if i + 1 < s.len() {
            assert(s[i + 1] == '\n');
        }
        assert(has_trailing_blank(s));
    }
}

/// A piece of a text that is not empty is not among its final line feeds.
pub proof fn lemma_unended_pieces(s: Seq<char>, i: int)
    requires
        0 <= i < chars::split(s, '\n').len(),
        chars::split(s, '\n')[i].len() > 0,
    ensures
        i < chars::split(unended(s), '\n').len(),
        chars::split(unended(s), '\n')[i] == chars::split(s, '\n')[i],
    decreases s.len(),
{
    if chars::ends_with_char(s, '\n') {
        let t = s.drop_last();
        let e = Seq::<char>::empty();
        chars::lemma_split_append(t, '\n', e);
        assert(t.push('\n') + e =~= s);
        assert(chars::split(e, '\n') =~= seq![e]);
        lemma_unended_pieces(t, i);
    }
}

/// After the passes have run, they find nothing more to fix.
pub proof fn fix_leaves_no_issue(s: Seq<char>, opts: Options)
    ensures
        !issues(fixed(s, opts), opts).trailing_whitespace,
        !issues(fixed(s, opts), opts).missing_final_newline,
{
    lemma_stripped_clean(s);
    lemma_unended_clean(stripped(s));
    lemma_push_newline_clean(unended(stripped(s)));
    fix_ends_with_one_newline(s, opts);
}

/// A text in which the passes find no issue is left as it is.
pub proof fn fix_keeps_clean_text(s: Seq<char>, opts: Options)
    requires
        !issues(s, opts).trailing_whitespace,
        !issues(s, opts).missing_final_newline,
    ensures
        fixed(s, opts) == s,
{
    if opts.strip_trailing {
        lemma_stripped_identity(s);
    }
    if opts.final_newline && s.len() > 0 {
        assert(s.drop_last().push('\n') =~= s);
        assert(unended(s) == unended(s.drop_last()));
    }
}

/// Running the passes twice is the same as running them once.
pub proof fn fix_is_idempotent(s: Seq<char>, opts: Options)
    ensures
        fixed(fixed(s, opts), opts) == fixed(s, opts),
{
    fix_leaves_no_issue(s, opts);
    fix_keeps_clean_text(fixed(s, opts), opts);
}

/// The passes change a text exactly where they find an issue.
pub proof fn fix_changes_iff_issue(s: Seq<char>, opts: Options)
    ensures
        fixed(s, opts) != s <==> (issues(s, opts).trailing_whitespace || issues(
            s,
            opts,
        ).missing_final_newline),
{
    fix_leaves_no_issue(s, opts);
    if !issues(s, opts).trailing_whitespace && !issues(s, opts).missing_final_newline {
        fix_keeps_clean_text(s, opts);
    }
}

/// With the final-newline pass on, a non-empty text comes out with exactly one
/// line feed at its end; an empty one stays empty whatever passes are on.
pub proof fn fix_ends_with_one_newline(s: Seq<char>, opts: Options)
    ensures
        opts.final_newline && s.len() > 0 ==> ends_with_one_newline(fixed(s, opts)),
        s.len() == 0 ==> fixed(s, opts).len() == 0,
{
    let body = if opts.strip_trailing {
        stripped(s)
    } else {
        s
    };
    lemma_unended(body);
    assert(unended(body).push('\n').drop_last() =~= unended(body));
}

/// The final-newline pass alone changes nothing but the line feeds at the end:
/// what is left of a text without them stays.
pub proof fn final_newline_touches_the_end_only(s: Seq<char>)
    requires
        s.len() > 0,
    ensures
        fixed(s, Options { strip_trailing: false, final_newline: true }) == unended(s).push('\n'),
        unended(s) == s.take(unended(s).len() as int),
        forall|i: int| unended(s).len() <= i < s.len() ==> #[trigger] s[i] == '\n',
{
    lemma_unended(s);
}

/// Stripping removes blanks only: every other character, each line feed among
/// them, stays, in the same order.
pub proof fn strip_removes_blanks_only(s: Seq<char>)
    ensures
        stripped(s).filter(|c: char| !is_blank(c)) == s.filter(|c: char| !is_blank(c)),
    decreases s.len(),
{
    let p = |c: char| !is_blank(c);
    if s.len() > 0 {
        let t = s.skip(1);
        strip_removes_blanks_only(t);
        assert(seq![s[0]] + t =~= s);
        Seq::<char>::filter_distributes_over_add(seq![s[0]], t, p);
        Seq::<char>::filter_distributes_over_add(seq![s[0]], stripped(t), p);
        assert(seq![s[0]].filter(p) == if p(s[0]) {
            seq![s[0]]
        } else {
            Seq::empty()
        }) by {
            reveal_with_fuel(Seq::filter, 2);
            assert(seq![s[0]].drop_last() =~= Seq::<char>::empty());
        }
        if is_blank(s[0]) {
            assert(Seq::<char>::empty() + t.filter(p) =~= t.filter(p));
        }
    }
}

/// Each piece without the blanks that end a line in it.
pub open spec fn stripped_all(pieces: Seq<Seq<char>>) -> Seq<Seq<char>> {
    pieces.map_values(|p: Seq<char>| stripped(p))
}

/// Whether only blanks follow up to the end of the line shows in the first line.
proof fn lemma_blank_to_eol_first_line(s: Seq<char>)
    ensures
        blank_to_eol(s) == blank_to_eol(chars::split(s, '\n')[0]),
    decreases s.len(),
{
    if s.len() > 0 {
        let t = s.skip(1);
        lemma_blank_to_eol_first_line(t);
        chars::lemma_split_nonempty(t, '\n');
        let first = chars::split(t, '\n')[0];
        if s[0] != '\n' {
            assert(chars::split(s, '\n')[0] == seq![s[0]] + first);
            assert((seq![s[0]] + first).skip(1) =~= first);
        }
    }
}

/// Stripping goes line by line.
pub proof fn strip_goes_line_by_line(s: Seq<char>)
    ensures
        chars::split(stripped(s), '\n') == stripped_all(chars::split(s, '\n')),
    decreases s.len(),
{
    let e = Seq::<char>::empty();
    if s.len() == 0 {
        assert(stripped(e) == e);
        assert(stripped_all(seq![e]) =~= seq![e]);
        assert(stripped(s) =~= e);
    } else {
        let t = s.skip(1);
        strip_goes_line_by_line(t);
        chars::lemma_split_nonempty(t, '\n');
        chars::lemma_split_nonempty(stripped(t), '\n');
        let ps = chars::split(t, '\n');
        let qs = chars::split(stripped(t), '\n');
        if s[0] == '\n' {
            let r = seq![s[0]] + stripped(t);
            assert(r.skip(1) =~= stripped(t));
            assert(stripped(e) == e);
            assert(stripped_all(seq![e] + ps) =~= seq![e] + stripped_all(ps));
        } else {
            lemma_blank_to_eol_first_line(t);
            let first = seq![s[0]] + ps[0];
            assert(first.skip(1) =~= ps[0]);
            assert(qs[0] == stripped(ps[0]));
            if is_blank(s[0]) && blank_to_eol(t) {
                assert(stripped(first) == stripped(ps[0]));
                assert(stripped_all(chars::attach(s[0], ps)) =~= qs);
            } else {
                let r = seq![s[0]] + stripped(t);
                assert(r.skip(1) =~= stripped(t));
                assert(stripped(first) == seq![s[0]] + stripped(ps[0]));
                assert(stripped_all(chars::attach(s[0], ps)) =~= chars::attach(s[0], qs));
            }
        }
    }
}

/// A line keeps all of it up to its last character that is not blank.
pub proof fn lemma_stripped_line(p: Seq<char>)
    requires
        !p.contains('\n'),
    ensures
        stripped(p).len() <= p.len(),
        stripped(p) == p.take(stripped(p).len() as int),
        forall|i: int| stripped(p).len() <= i < p.len() ==> is_blank(#[trigger] p[i]),
    decreases p.len(),
{
    if p.len() > 0 {
        let t = p.skip(1);
        assert(p.contains(p[0]));
        if t.contains('\n') {
            let i = choose|i: int| 0 <= i < t.len() && t[i] == '\n';
            assert(p[i + 1] == '\n');
        }
        lemma_stripped_line(t);
        let r = stripped(p);
        assert(forall|i: int| 0 <= i < t.len() ==> t[i] == p[i + 1]);
        if is_blank(p[0]) && blank_to_eol(t) {
            lemma_stripped_head(t);
            assert(stripped(t).len() == 0) by {
                if stripped(t).len() > 0 {
                    assert(stripped(t)[0] == t[0]);
                    assert(t.contains('\n'));
                }
            }
            assert(r =~= p.take(0));
            assert forall|i: int| 0 <= i < p.len() implies is_blank(#[trigger] p[i]) by {
                if i > 0 {
                    assert(is_blank(t[i - 1]));
                }
            }
        } else {
            assert(r =~= p.take(r.len() as int));
            assert forall|i: int| r.len() <= i < p.len() implies is_blank(#[trigger] p[i]) by {
                assert(is_blank(t[i - 1]));
            }
        }
    } else {
        assert(stripped(p) =~= p.take(0));
    }
}

/// A line loses just the spaces, tabs and carriage returns that end it: what is
/// left is the line up to a character that is none of them.
pub proof fn lines_lose_their_trailing_blanks(p: Seq<char>)
    requires
        !p.contains('\n'),
    ensures
        stripped(p) == p.take(stripped(p).len() as int),
        stripped(p).len() <= p.len(),
        forall|i: int|
            stripped(p).len() <= i < p.len() ==> #[trigger] p[i] == ' ' || p[i] == '\t' || p[i]
                == '\r',
        stripped(p).len() > 0 ==> stripped(p).last() != ' ' && stripped(p).last() != '\t'
            && stripped(p).last() != '\r',
{
    lemma_stripped_line(p);
    lemma_stripped_clean(p);
    let r = stripped(p);
    if r.len() > 0 && is_blank(r.last()) {
        assert(is_blank(r[r.len() - 1]));
        assert(has_trailing_blank(r));
    }
}

/// Passes that are off do nothing. Both together are the final-newline pass on
/// what stripping leaves, and a text of blanks alone becomes a single line feed.
pub proof fn passes_run_where_enabled(s: Seq<char>)
    ensures
        fixed(s, Options { strip_trailing: false, final_newline: false }) == s,
        fixed(s, Options { strip_trailing: true, final_newline: false }) == stripped(s),
        stripped(s).len() > 0 ==> fixed(s, Options { strip_trailing: true, final_newline: true })
            == fixed(stripped(s), Options { strip_trailing: false, final_newline: true }),
        s.len() > 0 && stripped(s).len() == 0 ==> fixed(
            s,
            Options { strip_trailing: true, final_newline: true },
        ) == seq!['\n'],
{
    if s.len() > 0 && stripped(s).len() == 0 {
        assert(fixed(s, Options { strip_trailing: true, final_newline: true }) =~= seq!['\n']);
    }
}

/// An issue is found just where a pass is on and the text is not as the pass
/// leaves it: a space, tab or carriage return at the end of a line, or an end
/// other than one line feed behind something else.
pub proof fn issues_by_pass(s: Seq<char>, opts: Options)
    ensures
        issues(s, opts).trailing_whitespace <==> opts.strip_trailing && exists|i: int|
            0 <= i < s.len() && (#[trigger] s[i] == ' ' || s[i] == '\t' || s[i] == '\r') && (i + 1
                == s.len() || s[i + 1] == '\n'),
        issues(s, opts).missing_final_newline <==> opts.final_newline && s.len() > 0 && (s.last()
            != '\n' || (s.len() > 1 && s[s.len() - 2] == '\n')),
{
    if has_trailing_blank(s) {
        let i = choose|i: int|
            0 <= i < s.len() && is_blank(#[trigger] s[i]) && (i + 1 == s.len() || s[i + 1] == '\n');
        assert(s[i] == ' ' || s[i] == '\t' || s[i] == '\r');
    }
    if exists|i: int|
        0 <= i < s.len() && (#[trigger] s[i] == ' ' || s[i] == '\t' || s[i] == '\r') && (i + 1
            == s.len() || s[i + 1] == '\n') {
        let i = choose|i: int|
            0 <= i < s.len() && (#[trigger] s[i] == ' ' || s[i] == '\t' || s[i] == '\r') && (i + 1
                == s.len() || s[i + 1] == '\n');
        assert(is_blank(s[i]));
    }
}

} // verus!
