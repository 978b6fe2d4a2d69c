//! What text operations mean, stated over sequences of characters.
//!
//! Nothing here runs. The functions of [`crate::text`] compute what the
//! definitions of this module describe.

use vstd::prelude::*;

verus! {

/// The characters of each string of a list.
pub open spec fn views(v: Seq<String>) -> Seq<Seq<char>> {
    v.map_values(|s: String| s@)
}

/// The characters of an optional string.
pub open spec fn opt_view(o: Option<String>) -> Option<Seq<char>> {
    match o {
        Some(s) => Some(s@),
        None => None,
    }
}

/// The Unicode `White_Space` property.
pub open spec fn is_whitespace(c: char) -> bool {
    let n = c as u32;
    ||| 0x09 <= n <= 0x0D
    ||| n == 0x20
    ||| n == 0x85
    ||| n == 0xA0
    ||| n == 0x1680
    ||| 0x2000 <= n <= 0x200A
    ||| n == 0x2028
    ||| n == 0x2029
    ||| n == 0x202F
    ||| n == 0x205F
    ||| n == 0x3000
}

/// An ASCII decimal digit.
pub open spec fn is_digit(c: char) -> bool {
    '0' <= c <= '9'
}

/// Length of the text in UTF-8.
pub open spec fn byte_len(s: Seq<char>) -> nat {
    vstd::utf8::encode_utf8(s).len()
}

/// `s` begins with `p`.
pub open spec fn starts_with(s: Seq<char>, p: Seq<char>) -> bool {
    p.len() <= s.len() && s.take(p.len() as int) == p
}

/// `s` ends with `p`.
pub open spec fn ends_with(s: Seq<char>, p: Seq<char>) -> bool {
    p.len() <= s.len() && s.skip(s.len() - p.len()) == p
}

/// The last character of `s` is `c`.
pub open spec fn ends_with_char(s: Seq<char>, c: char) -> bool {
    s.len() > 0 && s.last() == c
}

/// `p` occurs in `s` at position `i`.
pub open spec fn occurs_at(s: Seq<char>, p: Seq<char>, i: int) -> bool {
    0 <= i && i + p.len() <= s.len() && s.subrange(i, i + p.len()) == p
}

/// `p` occurs somewhere in `s`.
pub open spec fn contains(s: Seq<char>, p: Seq<char>) -> bool {
    exists|i: int| #[trigger] occurs_at(s, p, i)
}

/// Position of the first occurrence of `p` in `s`.
pub open spec fn find(s: Seq<char>, p: Seq<char>) -> Option<int>
    decreases s.len(),
{
    if starts_with(s, p) {
        Some(0)
    } else if s.len() == 0 {
        None
    } else {
        match find(s.skip(1), p) {
            Some(i) => Some(i + 1),
            None => None,
        }
    }
}

/// Position of the last occurrence of the character `c` in `s`.
pub open spec fn rfind_char(s: Seq<char>, c: char) -> Option<int>
    decreases s.len(),
{
    if s.len() == 0 {
        None
    } else if s.last() == c {
        Some(s.len() - 1)
    } else {
        rfind_char(s.drop_last(), c)
    }
}

/// Every occurrence of `p`, left to right and without overlap, replaced by `r`.
pub open spec fn replace(s: Seq<char>, p: Seq<char>, r: Seq<char>) -> Seq<char>
    decreases s.len(),
{
    if p.len() == 0 || s.len() < p.len() {
        s
    } else if starts_with(s, p) {
        r + replace(s.skip(p.len() as int), p, r)
    } else {
        seq![s[0]] + replace(s.skip(1), p, r)
    }
}

/// `c` put in front of the first piece.
pub open spec fn attach(c: char, pieces: Seq<Seq<char>>) -> Seq<Seq<char>> {
    pieces.update(0, seq![c] + pieces[0])
}

/// The pieces of `s` between the occurrences of `c`; always at least one.
pub open spec fn split(s: Seq<char>, c: char) -> Seq<Seq<char>>
    decreases s.len(),
{
    if s.len() == 0 {
        seq![Seq::empty()]
    } else if s[0] == c {
        seq![Seq::<char>::empty()] + split(s.skip(1), c)
    } else {
        attach(s[0], split(s.skip(1), c))
    }
}

/// The pieces of `s` between the occurrences of `p`, matched left to right.
pub open spec fn split_str(s: Seq<char>, p: Seq<char>) -> Seq<Seq<char>>
    decreases s.len(),
{
    if p.len() == 0 || s.len() < p.len() {
        seq![s]
    } else if starts_with(s, p) {
        seq![Seq::<char>::empty()] + split_str(s.skip(p.len() as int), p)
    } else {
        attach(s[0], split_str(s.skip(1), p))
    }
}

/// A line without the carriage return that may end it.
pub open spec fn strip_cr(line: Seq<char>) -> Seq<char> {
    if ends_with_char(line, '\r') {
        line.drop_last()
    } else {
        line
    }
}

/// Each piece without the carriage return that may end it.
pub open spec fn strip_crs(pieces: Seq<Seq<char>>) -> Seq<Seq<char>> {
    pieces.map_values(|p: Seq<char>| strip_cr(p))
}

/// The lines of a text: what stands before each line feed, without a final
/// carriage return, and then what follows the last line feed, if anything.
pub open spec fn lines(s: Seq<char>) -> Seq<Seq<char>> {
    let pieces = split(s, '\n');
    let ended = strip_crs(pieces.drop_last());
    if pieces.last().len() == 0 {
        ended
    } else {
        ended.push(pieces.last())
    }
}

/// `s` without leading whitespace.
pub open spec fn trim_start(s: Seq<char>) -> Seq<char>
    decreases s.len(),
{
    if s.len() > 0 && is_whitespace(s[0]) {
        trim_start(s.skip(1))
    } else {
        s
    }
}

/// `s` without trailing whitespace.
pub open spec fn trim_end(s: Seq<char>) -> Seq<char>
    decreases s.len(),
{
    if s.len() > 0 && is_whitespace(s.last()) {
        trim_end(s.drop_last())
    } else {
        s
    }
}

/// `s` without leading and trailing whitespace.
pub open spec fn trim(s: Seq<char>) -> Seq<char> {
    trim_end(trim_start(s))
}

/// `s` without any leading `c`.
pub open spec fn trim_start_char(s: Seq<char>, c: char) -> Seq<char>
    decreases s.len(),
{
    if s.len() > 0 && s[0] == c {
        trim_start_char(s.skip(1), c)
    } else {
        s
    }
}

/// `s` without any trailing `c`.
pub open spec fn trim_end_char(s: Seq<char>, c: char) -> Seq<char>
    decreases s.len(),
{
    if s.len() > 0 && s.last() == c {
        trim_end_char(s.drop_last(), c)
    } else {
        s
    }
}

/// Length of the run of non-whitespace that `s` begins with.
pub open spec fn word_len(s: Seq<char>) -> nat
    decreases s.len(),
{
    if s.len() == 0 || is_whitespace(s[0]) {
        0
    } else {
        1 + word_len(s.skip(1))
    }
}

/// The maximal runs of non-whitespace.
pub open spec fn words(s: Seq<char>) -> Seq<Seq<char>>
    decreases s.len(),
{
    if s.len() == 0 {
        Seq::empty()
    } else if is_whitespace(s[0]) {
        words(s.skip(1))
    } else {
        let n = word_len(s);
        if 0 < n <= s.len() {
            seq![s.take(n as int)] + words(s.skip(n as int))
        } else {
            Seq::empty()
        }
    }
}

/// The pieces with `sep` between each two of them.
pub open spec fn join(pieces: Seq<Seq<char>>, sep: Seq<char>) -> Seq<char>
    decreases pieces.len(),
{
    if pieces.len() == 0 {
        Seq::empty()
    } else if pieces.len() == 1 {
        pieces[0]
    } else {
        join(pieces.drop_last(), sep) + sep + pieces.last()
    }
}

/// The pieces one after another.
pub open spec fn concat(pieces: Seq<Seq<char>>) -> Seq<char>
    decreases pieces.len(),
{
    if pieces.len() == 0 {
        Seq::empty()
    } else {
        concat(pieces.drop_last()) + pieces.last()
    }
}

/// The pieces, each followed by a line feed.
pub open spec fn unlines(pieces: Seq<Seq<char>>) -> Seq<char>
    decreases pieces.len(),
{
    if pieces.len() == 0 {
        Seq::empty()
    } else {
        unlines(pieces.drop_last()) + pieces.last() + seq!['\n']
    }
}

/// The texts that say something.
pub open spec fn nonempty(texts: Seq<Seq<char>>) -> Seq<Seq<char>>
    decreases texts.len(),
{
    if texts.len() == 0 {
        Seq::empty()
    } else {
        let rest = nonempty(texts.drop_last());
        if texts.last().len() > 0 {
            rest.push(texts.last())
        } else {
            rest
        }
    }
}

/// The character of a digit.
pub open spec fn digit(d: nat) -> char {
    (48 + d) as char
}

/// A number in decimal, without leading zeros.
pub open spec fn decimal(n: nat) -> Seq<char>
    decreases n,
{
    if n < 10 {
        seq![digit(n)]
    } else {
        decimal(n / 10).push(digit(n % 10))
    }
}

/// An integer in decimal, with a minus sign where it is negative.
pub open spec fn signed_decimal(n: int) -> Seq<char> {
    if n < 0 {
        seq!['-'] + decimal((-n) as nat)
    } else {
        decimal(n as nat)
    }
}

/// All of `s` are decimal digits.
pub open spec fn all_digits(s: Seq<char>) -> bool {
    forall|i: int| 0 <= i < s.len() ==> #[trigger] is_digit(s[i])
}

/// The number that a run of digits writes.
pub open spec fn digits_value(s: Seq<char>) -> nat
    decreases s.len(),
{
    if s.len() == 0 {
        0
    } else {
        10 * digits_value(s.drop_last()) + (s.last() as nat - 48) as nat
    }
}

/// The number that `s` writes in decimal, with one optional leading `+`, where
/// it is at most `max`.
pub open spec fn parse(s: Seq<char>, max: nat) -> Option<nat> {
    let body = if s.len() > 0 && s[0] == '+' {
        s.skip(1)
    } else {
        s
    };
    if body.len() > 0 && all_digits(body) && digits_value(body) <= max {
        Some(digits_value(body))
    } else {
        None
    }
}

/// `a` stands before `b` in the order of code points.
pub open spec fn less(a: Seq<char>, b: Seq<char>) -> bool
    decreases a.len(),
{
    if b.len() == 0 {
        false
    } else if a.len() == 0 {
        true
    } else if a[0] != b[0] {
        a[0] < b[0]
    } else {
        less(a.skip(1), b.skip(1))
    }
}

pub proof fn lemma_split_nonempty(s: Seq<char>, c: char)
    ensures
        split(s, c).len() >= 1,
    decreases s.len(),
{
    if s.len() > 0 {
        lemma_split_nonempty(s.skip(1), c);
    }
}

pub proof fn lemma_split_str_nonempty(s: Seq<char>, p: Seq<char>)
    ensures
        split_str(s, p).len() >= 1,
    decreases s.len(),
{
    if p.len() > 0 && s.len() >= p.len() {
        if starts_with(s, p) {
            lemma_split_str_nonempty(s.skip(p.len() as int), p);
        } else {
            lemma_split_str_nonempty(s.skip(1), p);
        }
    }
}

pub proof fn lemma_word_len(s: Seq<char>)
    ensures
        word_len(s) <= s.len(),
        s.len() > 0 && !is_whitespace(s[0]) ==> word_len(s) > 0,
        forall|i: int| 0 <= i < word_len(s) ==> !is_whitespace(#[trigger] s[i]),
        word_len(s) < s.len() ==> is_whitespace(s[word_len(s) as int]),
    decreases s.len(),
{
    if s.len() > 0 && !is_whitespace(s[0]) {
        lemma_word_len(s.skip(1));
        assert forall|i: int| 0 <= i < word_len(s) implies !is_whitespace(#[trigger] s[i]) by {
            if i > 0 {
                assert(s[i] == s.skip(1)[i - 1]);
            }
        }
    }
}

/// [`find`] gives the first occurrence, and nothing only where there is none.
pub proof fn lemma_find(s: Seq<char>, p: Seq<char>)
    ensures
        match find(s, p) {
            Some(i) => occurs_at(s, p, i) && forall|j: int| #[trigger]
                occurs_at(s, p, j) ==> i <= j,
            None => !contains(s, p),
        },
        contains(s, p) <==> find(s, p) is Some,
    decreases s.len(),
{
    if starts_with(s, p) {
        assert(s.subrange(0, p.len() as int) =~= s.take(p.len() as int));
        assert(occurs_at(s, p, 0));
    } else if s.len() == 0 {
        if contains(s, p) {
            let i = choose|i: int| occurs_at(s, p, i);
            assert(s.take(p.len() as int) =~= s.subrange(i, i + p.len()));
        }
    } else {
        let t = s.skip(1);
        lemma_find(t, p);
        assert forall|j: int| #[trigger] occurs_at(s, p, j) implies j > 0 && occurs_at(
            t,
            p,
            j - 1,
        ) by {
            if j == 0 {
                assert(s.take(p.len() as int) =~= s.subrange(0, p.len() as int));
            }
            assert(t.subrange(j - 1, j - 1 + p.len()) =~= s.subrange(j, j + p.len()));
        }
        match find(t, p) {
            Some(i) => {
                assert(s.subrange(i + 1, i + 1 + p.len()) =~= t.subrange(i, i + p.len()));
                assert(occurs_at(s, p, i + 1));
            },
            None => {},
        }
    }
}

pub proof fn lemma_digits_value_push(s: Seq<char>, c: char)
    ensures
        digits_value(s.push(c)) == 10 * digits_value(s) + (c as nat - 48) as nat,
{
    assert(s.push(c).drop_last() =~= s);
}

pub proof fn lemma_digits_value_monotone(s: Seq<char>, i: int)
    requires
        0 <= i <= s.len(),
    ensures
        digits_value(s.take(i)) <= digits_value(s),
    decreases s.len() - i,
{
    if i < s.len() {
        lemma_digits_value_monotone(s, i + 1);
        assert(s.take(i + 1).drop_last() =~= s.take(i));
    } else {
        assert(s.take(i) =~= s);
    }
}

/// What [`decimal`] writes, [`digits_value`] reads back.
pub proof fn lemma_decimal_value(n: nat)
    ensures
        decimal(n).len() >= 1,
        all_digits(decimal(n)),
        digits_value(decimal(n)) == n,
    decreases n,
{
    if n < 10 {
        assert(decimal(n).drop_last() =~= Seq::<char>::empty());
        assert(digits_value(Seq::<char>::empty()) == 0);
    } else {
        lemma_decimal_value(n / 10);
        lemma_digits_value_push(decimal(n / 10), digit(n % 10));
    }
}

/// A text that does not hold the separator is one piece.
pub proof fn lemma_split_single(s: Seq<char>, c: char)
    requires
        !s.contains(c),
    ensures
        split(s, c) == seq![s],
    decreases s.len(),
{
    if s.len() > 0 {
        let t = s.skip(1);
        assert(s.contains(s[0]));
        if t.contains(c) {
            let i = choose|i: int| 0 <= i < t.len() && t[i] == c;
            assert(s[i + 1] == c);
        }
        lemma_split_single(t, c);
        assert(seq![s[0]] + t =~= s);
        assert(attach(s[0], seq![t]) =~= seq![s]);
    } else {
        assert(s =~= Seq::empty());
    }
}

/// A separator parts the pieces before it from those after it.
pub proof fn lemma_split_append(a: Seq<char>, c: char, b: Seq<char>)
    ensures
        split(a.push(c) + b, c) == split(a, c) + split(b, c),
    decreases a.len(),
{
    let s = a.push(c) + b;
    lemma_split_nonempty(b, c);
    if a.len() == 0 {
        assert(s.skip(1) =~= b);
        assert(split(a, c) =~= seq![Seq::<char>::empty()]);
    } else {
        let t = a.skip(1);
        assert(s.skip(1) =~= t.push(c) + b);
        lemma_split_append(t, c, b);
        lemma_split_nonempty(t, c);
        if a[0] == c {
            assert(seq![Seq::<char>::empty()] + (split(t, c) + split(b, c)) =~= (seq![
                Seq::<char>::empty(),
            ] + split(t, c)) + split(b, c));
        } else {
            assert(attach(a[0], split(t, c) + split(b, c)) =~= attach(a[0], split(t, c)) + split(
                b,
                c,
            ));
        }
    }
}

/// Two texts in a row: the last piece of the first and the first piece of the
/// second become one.
pub proof fn lemma_split_concat(a: Seq<char>, c: char, b: Seq<char>)
    ensures
        split(a + b, c) == split(a, c).drop_last().push(split(a, c).last() + split(b, c)[0])
            + split(b, c).skip(1),
    decreases a.len(),
{
    let s = a + b;
    let q = split(b, c);
    lemma_split_nonempty(b, c);
    if a.len() == 0 {
        let e = Seq::<char>::empty();
        assert(s =~= b);
        assert(split(a, c) =~= seq![e]);
        assert(e + q[0] =~= q[0]);
        assert(seq![e].drop_last().push(q[0]) + q.skip(1) =~= q);
    } else {
        let t = a.skip(1);
        let p = split(t, c);
        lemma_split_nonempty(t, c);
        assert(s.skip(1) =~= t + b);
        lemma_split_concat(t, c, b);
        let joined = p.drop_last().push(p.last() + q[0]) + q.skip(1);
        if a[0] == c {
            let e = Seq::<char>::empty();
            assert((seq![e] + p).drop_last().push((seq![e] + p).last() + q[0]) + q.skip(1) =~= seq![
                e,
            ] + joined);
        } else {
            let ap = attach(a[0], p);
            assert(seq![a[0]] + (p.last() + q[0]) =~= (seq![a[0]] + p.last()) + q[0]);
            assert(ap.drop_last().push(ap.last() + q[0]) + q.skip(1) =~= attach(a[0], joined));
        }
    }
}

/// No piece holds the separator.
pub proof fn lemma_split_pieces(s: Seq<char>, c: char)
    ensures
        forall|i: int| 0 <= i < split(s, c).len() ==> !(#[trigger] split(s, c)[i]).contains(c),
    decreases s.len(),
{
    if s.len() > 0 {
        let t = s.skip(1);
        lemma_split_pieces(t, c);
        lemma_split_nonempty(t, c);
        let ps = split(s, c);
        assert forall|i: int| 0 <= i < ps.len() implies !(#[trigger] ps[i]).contains(c) by {
            if s[0] == c {
                if i > 0 {
                    assert(ps[i] == split(t, c)[i - 1]);
                }
            } else if i == 0 {
                let first = split(t, c)[0];
                if ps[0].contains(c) {
                    let k = choose|k: int| 0 <= k < ps[0].len() && ps[0][k] == c;
                    assert(first[k - 1] == c);
                    assert(first.contains(c));
                }
            } else {
                assert(ps[i] == split(t, c)[i]);
            }
        }
    }
}

/// A text followed by a line feed and more: the lines of both.
pub proof fn lemma_lines_append(a: Seq<char>, b: Seq<char>)
    ensures
        lines(a.push('\n') + b) == strip_crs(split(a, '\n')) + lines(b),
        lines(a.push('\n')) == strip_crs(split(a, '\n')),
{
    let p = split(a, '\n');
    let q = split(b, '\n');
    lemma_split_append(a, '\n', b);
    lemma_split_nonempty(a, '\n');
    lemma_split_nonempty(b, '\n');
    assert((p + q).drop_last() =~= p + q.drop_last());
    assert(strip_crs(p + q.drop_last()) =~= strip_crs(p) + strip_crs(q.drop_last()));
    assert(strip_crs(p) + strip_crs(q.drop_last()).push(q.last()) =~= (strip_crs(p) + strip_crs(
        q.drop_last(),
    )).push(q.last()));
    let e = Seq::<char>::empty();
    lemma_split_append(a, '\n', e);
    assert(a.push('\n') + e =~= a.push('\n'));
    assert((p + seq![e]).drop_last() =~= p);
}

/// Where `p` does not begin here, the first character stays.
pub proof fn lemma_replace_step(s: Seq<char>, p: Seq<char>, r: Seq<char>)
    requires
        s.len() > 0,
        p.len() > 0,
        !starts_with(s, p),
    ensures
        replace(s, p, r) == seq![s[0]] + replace(s.skip(1), p, r),
{
    if s.len() < p.len() {
        assert(seq![s[0]] + s.skip(1) =~= s);
    }
}

/// A character that is not in `p` parts the replacements before it from those
/// after it.
pub proof fn lemma_replace_append(a: Seq<char>, c: char, b: Seq<char>, p: Seq<char>, r: Seq<char>)
    requires
        p.len() > 0,
        !p.contains(c),
    ensures
        replace(a.push(c) + b, p, r) == replace(a, p, r).push(c) + replace(b, p, r),
    decreases a.len(),
{
    let s = a.push(c) + b;
    if starts_with(s, p) {
        if p.len() > a.len() {
            assert(p[a.len() as int] == s.take(p.len() as int)[a.len() as int]);
            assert(p.contains(c));
        }
        let n = p.len() as int;
        assert(a.take(n) =~= s.take(n));
        assert(s.skip(n) =~= a.skip(n).push(c) + b);
        lemma_replace_append(a.skip(n), c, b, p, r);
        assert(r + (replace(a.skip(n), p, r).push(c) + replace(b, p, r)) =~= (r + replace(
            a.skip(n),
            p,
            r,
        )).push(c) + replace(b, p, r));
    } else {
        lemma_replace_step(s, p, r);
        if a.len() == 0 {
            assert(s.skip(1) =~= b);
            assert(seq![c] + replace(b, p, r) =~= a.push(c) + replace(b, p, r));
        } else {
            if starts_with(a, p) {
                assert(s.take(p.len() as int) =~= a.take(p.len() as int));
            }
            lemma_replace_step(a, p, r);
            assert(s.skip(1) =~= a.skip(1).push(c) + b);
            lemma_replace_append(a.skip(1), c, b, p, r);
            assert(seq![a[0]] + (replace(a.skip(1), p, r).push(c) + replace(b, p, r)) =~= (seq![
                a[0],
            ] + replace(a.skip(1), p, r)).push(c) + replace(b, p, r));
        }
    }
}

/// Where `p` does not occur, nothing is replaced.
pub proof fn lemma_replace_absent(s: Seq<char>, p: Seq<char>, r: Seq<char>)
    requires
        !contains(s, p),
    ensures
        replace(s, p, r) == s,
    decreases s.len(),
{
    lemma_find(s, p);
    if s.len() > 0 && p.len() > 0 {
        lemma_replace_step(s, p, r);
        lemma_find(s.skip(1), p);
        lemma_replace_absent(s.skip(1), p, r);
        assert(seq![s[0]] + s.skip(1) =~= s);
    }
}

/// A character that is neither in the text nor in the replacement does not
/// come up.
pub proof fn lemma_replace_no_char(s: Seq<char>, p: Seq<char>, r: Seq<char>, c: char)
    requires
        !s.contains(c),
        !r.contains(c),
    ensures
        !replace(s, p, r).contains(c),
    decreases s.len(),
{
    if p.len() > 0 && s.len() >= p.len() {
        let n: int = if starts_with(s, p) {
            p.len() as int
        } else {
            1
        };
        let head = if starts_with(s, p) {
            r
        } else {
            seq![s[0]]
        };
        let t = s.skip(n);
        if t.contains(c) {
            let i = choose|i: int| 0 <= i < t.len() && t[i] == c;
            assert(s[i + n] == c);
        }
        lemma_replace_no_char(t, p, r, c);
        let rest = replace(t, p, r);
        let all = head + rest;
        if all.contains(c) {
            let i = choose|i: int| 0 <= i < all.len() && all[i] == c;
            if i < head.len() {
                assert(head[i] == c);
                assert(head.contains(c));
                assert(s.contains(s[0]));
            } else {
                assert(rest[i - head.len()] == c);
                assert(rest.contains(c));
            }
        }
    }
}

/// Where the result of a replacement begins with characters of `p`, so does the
/// text, if none of them is in `r`.
proof fn lemma_replace_prefix(s: Seq<char>, p: Seq<char>, r: Seq<char>, q: Seq<char>)
    requires
        p.len() > 0,
        r.len() > 0,
        forall|i: int| 0 <= i < r.len() ==> !p.contains(#[trigger] r[i]),
        forall|i: int| 0 <= i < q.len() ==> p.contains(#[trigger] q[i]),
        starts_with(replace(s, p, r), q),
    ensures
        starts_with(s, q),
    decreases s.len(),
{
    let out = replace(s, p, r);
    if q.len() == 0 {
        assert(s.take(0) =~= q);
    } else if s.len() >= p.len() {
        assert(out[0] == q[0]) by {
            assert(out.take(q.len() as int)[0] == out[0]);
        }
        assert(p.contains(q[0]));
        if starts_with(s, p) {
            assert(out[0] == r[0]);
        } else {
            let rest = replace(s.skip(1), p, r);
            let q1 = q.skip(1);
            assert(out[0] == s[0]);
            assert(rest.take(q1.len() as int) =~= out.take(q.len() as int).skip(1));
            assert forall|i: int| 0 <= i < q1.len() implies p.contains(#[trigger] q1[i]) by {
                assert(q1[i] == q[i + 1]);
            }
            lemma_replace_prefix(s.skip(1), p, r, q1);
            assert(s.take(q.len() as int) =~= seq![s[0]] + s.skip(1).take(q1.len() as int));
            assert(q =~= seq![q[0]] + q1);
        }
    }
}

/// No occurrence is left after a replacement by something that shares no
/// character with what is replaced.
pub proof fn lemma_replace_leaves_none(s: Seq<char>, p: Seq<char>, r: Seq<char>)
    requires
        p.len() > 0,
        r.len() > 0,
        forall|i: int| 0 <= i < r.len() ==> !p.contains(#[trigger] r[i]),
    ensures
        !contains(replace(s, p, r), p),
    decreases s.len(),
{
    let out = replace(s, p, r);
    if contains(out, p) {
        let j = choose|j: int| occurs_at(out, p, j);
        assert(out.subrange(j, j + p.len())[0] == out[j]);
        assert(p.contains(p[0]));
        if s.len() >= p.len() {
            if starts_with(s, p) {
                let rest = replace(s.skip(p.len() as int), p, r);
                lemma_replace_leaves_none(s.skip(p.len() as int), p, r);
                if j < r.len() {
                    assert(out[j] == r[j]);
                } else {
                    assert(rest.subrange(j - r.len(), j - r.len() + p.len()) =~= p);
                    assert(occurs_at(rest, p, j - r.len()));
                }
            } else {
                let rest = replace(s.skip(1), p, r);
                lemma_replace_leaves_none(s.skip(1), p, r);
                if j == 0 {
                    assert(out.take(p.len() as int) =~= p);
                    assert forall|i: int| 0 <= i < p.len() implies p.contains(#[trigger] p[i]) by {}
                    lemma_replace_prefix(s, p, r, p);
                } else {
                    assert(rest.subrange(j - 1, j - 1 + p.len()) =~= p);
                    assert(occurs_at(rest, p, j - 1));
                }
            }
        }
    }
}

/// A text with something left over stays non-empty under replacement by
/// something.
pub proof fn lemma_replace_len(s: Seq<char>, p: Seq<char>, r: Seq<char>)
    requires
        r.len() > 0,
    ensures
        s.len() > 0 <==> replace(s, p, r).len() > 0,
{
}

/// Every occurrence in `b` is one in `a + b + c`.
pub proof fn lemma_contains_widen(a: Seq<char>, b: Seq<char>, c: Seq<char>, p: Seq<char>)
    requires
        contains(b, p),
    ensures
        contains(a + b + c, p),
{
    let i = choose|i: int| occurs_at(b, p, i);
    let w = a + b + c;
    assert(w.subrange(a.len() + i, a.len() + i + p.len()) =~= b.subrange(i, i + p.len()));
    assert(occurs_at(w, p, a.len() + i));
}

/// Every piece between the occurrences of `p` is still there when these are
/// replaced.
pub proof fn lemma_replace_keeps_pieces(s: Seq<char>, p: Seq<char>, r: Seq<char>, k: int)
    requires
        0 <= k < split_str(s, p).len(),
    ensures
        contains(replace(s, p, r), split_str(s, p)[k]),
        k == 0 ==> starts_with(replace(s, p, r), split_str(s, p)[0]),
    decreases s.len(),
{
    let out = replace(s, p, r);
    let ps = split_str(s, p);
    if p.len() == 0 || s.len() < p.len() {
        assert(out.subrange(0, out.len() as int) =~= s);
        assert(out.take(s.len() as int) =~= s);
        assert(occurs_at(out, s, 0));
    } else if starts_with(s, p) {
        let t = s.skip(p.len() as int);
        if k == 0 {
            assert(out.subrange(0, 0) =~= ps[0]);
            assert(out.take(0) =~= ps[0]);
            assert(occurs_at(out, ps[0], 0));
        } else {
            lemma_replace_keeps_pieces(t, p, r, k - 1);
            lemma_contains_widen(r, replace(t, p, r), Seq::empty(), ps[k]);
            assert(r + replace(t, p, r) + Seq::empty() =~= out);
        }
    } else {
        let t = s.skip(1);
        lemma_split_str_nonempty(t, p);
        lemma_replace_keeps_pieces(t, p, r, 0);
        if k == 0 {
            let q = split_str(t, p)[0];
            let rest = replace(t, p, r);
            assert(rest.take(q.len() as int) == q);
            assert(out.take(ps[0].len() as int) =~= ps[0]);
            assert(out.subrange(0, ps[0].len() as int) =~= ps[0]);
            assert(occurs_at(out, ps[0], 0));
        } else {
            lemma_replace_keeps_pieces(t, p, r, k);
            lemma_contains_widen(seq![s[0]], replace(t, p, r), Seq::empty(), ps[k]);
            assert(seq![s[0]] + replace(t, p, r) + Seq::empty() =~= out);
        }
    }
}

/// Containing is transitive.
pub proof fn lemma_contains_transitive(s: Seq<char>, t: Seq<char>, u: Seq<char>)
    requires
        contains(s, t),
        contains(t, u),
    ensures
        contains(s, u),
{
    let i = choose|i: int| occurs_at(s, t, i);
    let j = choose|j: int| occurs_at(t, u, j);
    assert(s.subrange(i + j, i + j + u.len()) =~= s.subrange(i, i + t.len()).subrange(
        j,
        j + u.len(),
    ));
    assert(occurs_at(s, u, i + j));
}

/// What is left after trimming is part of the text, and neither begins nor
/// ends with whitespace.
pub proof fn lemma_trim(s: Seq<char>)
    ensures
        contains(s, trim(s)),
        trim(s).len() > 0 ==> !is_whitespace(trim(s)[0]) && !is_whitespace(trim(s).last()),
{
    lemma_trim_start(s);
    lemma_trim_end(trim_start(s));
    let a = trim_start(s);
    let b = trim(s);
    assert(contains(a, b)) by {
        assert(a.subrange(0, b.len() as int) =~= a.take(b.len() as int));
        assert(occurs_at(a, b, 0));
    }
    assert(contains(s, a)) by {
        let n = s.len() - a.len();
        assert(s.subrange(n, n + a.len()) =~= s.skip(n));
        assert(occurs_at(s, a, n));
    }
    lemma_contains_transitive(s, a, b);
    if b.len() > 0 {
        assert(b[0] == a.take(b.len() as int)[0]);
    }
}

proof fn lemma_trim_start(s: Seq<char>)
    ensures
        trim_start(s).len() <= s.len(),
        trim_start(s) == s.skip(s.len() - trim_start(s).len()),
        trim_start(s).len() > 0 ==> !is_whitespace(trim_start(s)[0]),
    decreases s.len(),
{
    if s.len() > 0 && is_whitespace(s[0]) {
        lemma_trim_start(s.skip(1));
        let t = trim_start(s);
        assert(s.skip(1).skip(s.len() - 1 - t.len()) =~= s.skip(s.len() - t.len()));
    } else {
        assert(s.skip(0) =~= s);
    }
}

proof fn lemma_trim_end(s: Seq<char>)
    ensures
        trim_end(s).len() <= s.len(),
        trim_end(s) == s.take(trim_end(s).len() as int),
        trim_end(s).len() > 0 ==> !is_whitespace(trim_end(s).last()),
    decreases s.len(),
{
    if s.len() > 0 && is_whitespace(s.last()) {
        lemma_trim_end(s.drop_last());
        let t = trim_end(s);
        assert(s.drop_last().take(t.len() as int) =~= s.take(t.len() as int));
    } else {
        assert(s.take(s.len() as int) =~= s);
    }
}

/// A run of other characters before whitespace is the first word.
pub proof fn lemma_first_word(w: Seq<char>, c: char, rest: Seq<char>)
    requires
        w.len() > 0,
        forall|i: int| 0 <= i < w.len() ==> !is_whitespace(#[trigger] w[i]),
        is_whitespace(c),
    ensures
        words(w.push(c) + rest) == seq![w] + words(rest),
{
    let s = w.push(c) + rest;
    lemma_word_len(s);
    let n = word_len(s) as int;
    assert(s[0] == w[0]);
    if n < w.len() {
        assert(s[n] == w[n]);
    } else if n > w.len() {
        assert(!is_whitespace(s[w.len() as int]));
    }
    assert(s.take(n) =~= w);
    assert(s.skip(n)[0] == c);
    assert(s.skip(n).skip(1) =~= rest);
    assert(words(s.skip(n)) == words(rest));
}

/// A text without whitespace is one word.
pub proof fn lemma_only_word(w: Seq<char>)
    requires
        w.len() > 0,
        forall|i: int| 0 <= i < w.len() ==> !is_whitespace(#[trigger] w[i]),
    ensures
        words(w) == seq![w],
{
    lemma_word_len(w);
    let n = word_len(w) as int;
    if n < w.len() {
        assert(is_whitespace(w[n]));
    }
    assert(w.take(n) =~= w);
    assert(w.skip(n) =~= Seq::<char>::empty());
    assert(words(w.skip(n)) =~= Seq::<Seq<char>>::empty());
}


/// The pieces of a text, with the separator between each two of them, are the
/// text again.
pub proof fn split_pieces_make_up_the_text(s: Seq<char>, c: char)
    ensures
        join(split(s, c), seq![c]) == s,
    decreases s.len(),
{
    if s.len() == 0 {
        assert(split(s, c) =~= seq![Seq::<char>::empty()]);
        assert(s =~= Seq::empty());
    } else if s.contains(c) {
        let k = choose|k: int| 0 <= k < s.len() && s[k] == c;
        let a = s.take(k);
        let b = s.skip(k + 1);
        assert(s =~= a.push(c) + b);
        lemma_split_append(a, c, b);
        split_pieces_make_up_the_text(a, c);
        split_pieces_make_up_the_text(b, c);
        lemma_split_nonempty(a, c);
        lemma_split_nonempty(b, c);
        lemma_join_append(split(a, c), split(b, c), seq![c]);
        assert(a + seq![c] + b =~= s);
    } else {
        lemma_split_single(s, c);
    }
}

proof fn lemma_join_append(a: Seq<Seq<char>>, b: Seq<Seq<char>>, sep: Seq<char>)
    requires
        a.len() > 0,
        b.len() > 0,
    ensures
        join(a + b, sep) == join(a, sep) + sep + join(b, sep),
    decreases b.len(),
{
    let all = a + b;
    assert(all.last() == b.last());
    if b.len() == 1 {
        assert(all.drop_last() =~= a);
        assert(join(b, sep) == b.last());
    } else {
        assert(all.drop_last() =~= a + b.drop_last());
        lemma_join_append(a, b.drop_last(), sep);
        assert(join(a, sep) + sep + join(b.drop_last(), sep) + sep + b.last() =~= join(a, sep) + sep
            + (join(b.drop_last(), sep) + sep + b.last()));
    }
}

/// Texts that hold no line feed, and do not end with a carriage return, are the
/// lines of what is written with a line feed behind each.
pub proof fn written_lines_are_read_back(ls: Seq<Seq<char>>)
    requires
        forall|i: int|
            0 <= i < ls.len() ==> !(#[trigger] ls[i]).contains('\n') && !ends_with_char(
                ls[i],
                '\r',
            ),
    ensures
        lines(unlines(ls)) == ls,
{
    lemma_split_unlines(ls);
    let e = Seq::<char>::empty();
    let pieces = split(unlines(ls), '\n');
    assert(pieces.drop_last() =~= ls);
    assert(pieces.last() == e);
    assert(strip_crs(ls) =~= ls) by {
        assert forall|i: int| 0 <= i < ls.len() implies strip_crs(ls)[i] == ls[i] by {}
    }
}

proof fn lemma_split_unlines(ls: Seq<Seq<char>>)
    requires
        forall|i: int| 0 <= i < ls.len() ==> !(#[trigger] ls[i]).contains('\n'),
    ensures
        split(unlines(ls), '\n') == ls.push(Seq::empty()),
    decreases ls.len(),
{
    let e = Seq::<char>::empty();
    assert(split(e, '\n') =~= seq![e]);
    if ls.len() == 0 {
        assert(ls.push(e) =~= seq![e]);
    } else {
        let t = ls.drop_last();
        let l = ls.last();
        lemma_split_unlines(t);
        lemma_split_single(l, '\n');
        let u = unlines(t);
        assert(unlines(ls) =~= (u + l).push('\n') + e);
        lemma_split_append(u + l, '\n', e);
        lemma_split_concat(u, '\n', l);
        assert(t.push(e).drop_last() =~= t);
        assert(e + l =~= l);
        assert(seq![l].skip(1) =~= Seq::<Seq<char>>::empty());
        assert(split(u + l, '\n') =~= t.push(l));
        assert(t.push(l) =~= ls);
    }
}

/// Trimming takes whitespace off both ends of a text, and leaves none there.
pub proof fn trimming_takes_whitespace_only(s: Seq<char>)
    ensures
        ({
            let a = s.len() - trim_start(s).len();
            let t = trim(s);
            &&& 0 <= a && a + t.len() <= s.len()
            &&& t == s.subrange(a, a + t.len())
            &&& forall|i: int| 0 <= i < a ==> is_whitespace(#[trigger] s[i])
            &&& forall|i: int| a + t.len() <= i < s.len() ==> is_whitespace(#[trigger] s[i])
            &&& t.len() > 0 ==> !is_whitespace(t[0]) && !is_whitespace(t.last())
        }),
{
    lemma_trim(s);
    lemma_trim_start(s);
    let u = trim_start(s);
    lemma_trim_end(u);
    let a = s.len() - u.len();
    let t = trim(s);
    assert(t =~= s.subrange(a, a + t.len())) by {
        assert(u.take(t.len() as int) =~= s.subrange(a, a + t.len()));
    }
    lemma_trim_start_off(s);
    lemma_trim_end_off(u);
    assert forall|i: int| a + t.len() <= i < s.len() implies is_whitespace(#[trigger] s[i]) by {
        assert(s[i] == u[i - a]);
    }
}

proof fn lemma_trim_start_off(s: Seq<char>)
    ensures
        forall|i: int|
            0 <= i < s.len() - trim_start(s).len() ==> is_whitespace(#[trigger] s[i]),
    decreases s.len(),
{
    if s.len() > 0 && is_whitespace(s[0]) {
        let t = s.skip(1);
        lemma_trim_start_off(t);
        assert forall|i: int|
            0 <= i < s.len() - trim_start(s).len() implies is_whitespace(#[trigger] s[i]) by {
            if i > 0 {
                assert(s[i] == t[i - 1]);
            }
        }
    }
}

proof fn lemma_trim_end_off(s: Seq<char>)
    ensures
        forall|i: int| trim_end(s).len() <= i < s.len() ==> is_whitespace(#[trigger] s[i]),
    decreases s.len(),
{
    if s.len() > 0 && is_whitespace(s.last()) {
        let t = s.drop_last();
        lemma_trim_end_off(t);
        assert forall|i: int| trim_end(s).len() <= i < s.len() implies is_whitespace(
            #[trigger] s[i],
        ) by {
            if i < t.len() {
                assert(s[i] == t[i]);
            }
        }
    }
}

/// A number that was written in decimal is read back, where it is not too large;
/// a text with anything but digits behind an optional `+` is no number.
pub proof fn written_numbers_are_read_back(n: nat, max: nat, s: Seq<char>, i: int)
    ensures
        parse(decimal(n), max) == if n <= max {
            Some(n)
        } else {
            None
        },
        parse(seq!['+'] + decimal(n), max) == parse(decimal(n), max),
        0 <= i < s.len() && !('0' <= s[i] <= '9') && (i > 0 || s[0] != '+') ==> parse(s, max)
            is None,
        parse(Seq::empty(), max) is None,
        decimal(n).len() > 1 ==> decimal(n)[0] != '0',
{
    lemma_decimal_value(n);
    let d = decimal(n);
    assert(is_digit(d[0]));
    assert((seq!['+'] + d).skip(1) =~= d);
    lemma_no_leading_zero(n);
    if 0 <= i < s.len() && !('0' <= s[i] <= '9') && (i > 0 || s[0] != '+') {
        if s[0] == '+' {
            let b = s.skip(1);
            assert(b[i - 1] == s[i]);
            if all_digits(b) {
                assert(is_digit(b[i - 1]));
            }
        } else if all_digits(s) {
            assert(is_digit(s[i]));
        }
    }
}

proof fn lemma_no_leading_zero(n: nat)
    ensures
        n > 0 ==> decimal(n)[0] != '0',
        n < 10 <==> decimal(n).len() == 1,
    decreases n,
{
    lemma_decimal_value(n);
    if n >= 10 {
        lemma_no_leading_zero(n / 10);
        lemma_decimal_value(n / 10);
        assert(decimal(n)[0] == decimal(n / 10)[0]);
    } else {
        assert(decimal(n)[0] == (48 + n) as char);
    }
}

/// Of texts those that say something stay, in order.
pub proof fn empty_texts_are_left_out(texts: Seq<Seq<char>>)
    ensures
        nonempty(texts) == texts.filter(|t: Seq<char>| t.len() > 0),
    decreases texts.len(),
{
    reveal(Seq::filter);
    if texts.len() > 0 {
        empty_texts_are_left_out(texts.drop_last());
    }
}

/// Among ASCII the space, the tabs, the line and form feed and the carriage
/// return are whitespace.
pub proof fn ascii_whitespace(c: char)
    requires
        (c as u32) < 128,
    ensures
        is_whitespace(c) <==> c == ' ' || c == '\t' || c == '\n' || c == '\x0b' || c == '\x0c' || c
            == '\r',
{
}

/// What begins with a character that stands nowhere before it is found there.
pub proof fn lemma_find_first(a: Seq<char>, p: Seq<char>, b: Seq<char>)
    requires
        p.len() > 0,
        !a.contains(p[0]),
    ensures
        find(a + p + b, p) == Some(a.len() as int),
    decreases a.len(),
{
    let s = a + p + b;
    if a.len() == 0 {
        assert(s.take(p.len() as int) =~= p);
    } else {
        assert(a.contains(a[0]));
        assert(s[0] == a[0]);
        if starts_with(s, p) {
            assert(s.take(p.len() as int)[0] == s[0]);
        }
        let t = a.skip(1);
        assert(s.skip(1) =~= t + p + b);
        assert(!t.contains(p[0])) by {
            if t.contains(p[0]) {
                let k = choose|k: int| 0 <= k < t.len() && t[k] == p[0];
                assert(a[k + 1] == p[0]);
            }
        }
        lemma_find_first(t, p, b);
    }
}

/// A negative number is written like its opposite behind a minus sign.
pub proof fn minus_signs_stand_in_front(n: nat)
    ensures
        signed_decimal(n as int) == decimal(n),
        n > 0 ==> signed_decimal(-(n as int)) == seq!['-'] + decimal(n),
{
}

/// A text begins and ends with just those texts of which and some other it is
/// made up.
pub proof fn ends_of_texts(a: Seq<char>, b: Seq<char>, c: char)
    ensures
        starts_with(a + b, a),
        ends_with(a + b, b),
        ends_with_char(a.push(c), c),
        !ends_with_char(Seq::empty(), c),
        ends_with_char(a, c) ==> a == a.drop_last().push(c),
        ends_with(a, b) ==> a == a.take(a.len() - b.len()) + b,
        starts_with(a, b) ==> a == b + a.skip(b.len() as int),
{
    assert((a + b).take(a.len() as int) =~= a);
    assert((a + b).skip(a.len() as int) =~= b);
    if ends_with_char(a, c) {
        assert(a =~= a.drop_last().push(c));
    }
    if ends_with(a, b) {
        assert(a =~= a.take(a.len() - b.len()) + b);
    }
    if starts_with(a, b) {
        assert(a =~= b + a.skip(b.len() as int));
    }
}

/// A run of the character is taken off the front or the end, and nothing else.
pub proof fn runs_are_taken_off(run: Seq<char>, s: Seq<char>, c: char)
    requires
        forall|i: int| 0 <= i < run.len() ==> #[trigger] run[i] == c,
    ensures
        s.len() == 0 || s[0] != c ==> trim_start_char(run + s, c) == s,
        s.len() == 0 || s.last() != c ==> trim_end_char(s + run, c) == s,
    decreases run.len(),
{
    if run.len() == 0 {
        assert(run + s =~= s);
        assert(s + run =~= s);
    } else {
        assert(run[0] == c && run[run.len() - 1] == c);
        assert((run + s).skip(1) =~= run.skip(1) + s);
        assert((s + run).drop_last() =~= s + run.drop_last());
        runs_are_taken_off(run.skip(1), s, c);
        runs_are_taken_off(run.drop_last(), s, c);
    }
}

/// Texts are ordered by the first character in which they differ; the beginning
/// of a text comes before it.
pub proof fn texts_are_ordered_by_character(common: Seq<char>, a: Seq<char>, b: Seq<char>)
    ensures
        a.len() > 0 && b.len() > 0 && a[0] != b[0] ==> (less(common + a, common + b) <==> a[0]
            < b[0]),
        b.len() > 0 ==> less(common, common + b),
        !less(common + b, common),
    decreases common.len(),
{
    if common.len() > 0 {
        let t = common.skip(1);
        assert((common + a).skip(1) =~= t + a);
        assert((common + b).skip(1) =~= t + b);
        assert((common + a)[0] == common[0] && (common + b)[0] == common[0]);
        texts_are_ordered_by_character(t, a, b);
    } else {
        assert(common + a =~= a);
        assert(common + b =~= b);
    }
}

} // verus!
