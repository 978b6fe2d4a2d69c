//! Text operations, each proved to compute what [`crate::chars`] describes.

use crate::chars;
use vstd::prelude::*;

verus! {

/// `String::push` appends one character.
pub assume_specification[ String::push ](s: &mut String, c: char)
    ensures
        final(s)@ == old(s)@.push(c),
;

/// `String::push_str` appends the whole of the other text.
pub assume_specification[ String::push_str ](s: &mut String, other: &str)
    ensures
        final(s)@ == old(s)@ + other@,
;

/// The characters of a text.
pub fn chars_of(s: &str) -> (v: Vec<char>)
    ensures
        v@ == s@,
{
    let mut v: Vec<char> = Vec::new();
    for c in it: s.chars()
        invariant
            v@.len() == it.index(),
            it.seq() == s@,
            v@ =~= s@.take(it.index() as int),
    {
        v.push(c);
    }
    v
}

/// The text of the characters from `from` up to `to`.
pub fn slice(v: &Vec<char>, from: usize, to: usize) -> (r: String)
    requires
        from <= to <= v.len(),
    ensures
        r@ == v@.subrange(from as int, to as int),
{
    let mut r = String::new();
    let mut i: usize = from;
    while i < to
        invariant
            from <= i <= to <= v.len(),
            r@ == v@.subrange(from as int, i as int),
        decreases to - i,
    {
        r.push(v[i]);
        i += 1;
    }
    r
}

/// Whether two texts are the same.
pub fn same(a: &str, b: &str) -> (r: bool)
    ensures
        r == (a@ == b@),
{
    let x = a.to_owned();
    let y = b.to_owned();
    x == y
}

/// Whether two files hold the same bytes.
pub fn same_bytes(a: &Vec<u8>, b: &Vec<u8>) -> (r: bool)
    ensures
        r == (a@ == b@),
{
    if a.len() != b.len() {
        return false;
    }
    let mut i: usize = 0;
    while i < a.len()
        invariant
            i <= a.len(),
            a.len() == b.len(),
            forall|k: int| 0 <= k < i ==> a@[k] == b@[k],
        decreases a.len() - i,
    {
        if a[i] != b[i] {
            assert(a@[i as int] != b@[i as int]);
            return false;
        }
        i += 1;
    }
    assert(a@ =~= b@);
    true
}

/// Whether `p` occurs in `v` at position `i`.
fn occurs_at(v: &Vec<char>, p: &Vec<char>, i: usize) -> (r: bool)
    requires
        i <= v.len(),
    ensures
        r == chars::occurs_at(v@, p@, i as int),
{
    if p.len() > v.len() - i {
        return false;
    }
    let mut k: usize = 0;
    while k < p.len()
        invariant
            k <= p.len() <= v.len() - i,
            i <= v.len(),
            forall|j: int| 0 <= j < k ==> v@[i + j] == p@[j],
        decreases p.len() - k,
    {
        if v[i + k] != p[k] {
            assert(v@.subrange(i as int, i + p@.len())[k as int] != p@[k as int]);
            return false;
        }
        k += 1;
    }
    assert(v@.subrange(i as int, i + p@.len()) =~= p@);
    true
}

/// Whether `s` begins with `p`.
pub fn starts_with(s: &str, p: &str) -> (r: bool)
    ensures
        r == chars::starts_with(s@, p@),
{
    let v = chars_of(s);
    let w = chars_of(p);
    let r = occurs_at(&v, &w, 0);
    assert(w@.len() <= v@.len() ==> v@.subrange(0, w@.len() as int) =~= v@.take(w@.len() as int));
    r
}

/// Whether `s` ends with `p`.
pub fn ends_with(s: &str, p: &str) -> (r: bool)
    ensures
        r == chars::ends_with(s@, p@),
{
    let v = chars_of(s);
    let w = chars_of(p);
    if w.len() > v.len() {
        return false;
    }
    let r = occurs_at(&v, &w, v.len() - w.len());
    assert(v@.subrange(v@.len() - w@.len(), v@.len() as int) =~= v@.skip(v@.len() - w@.len()));
    r
}

/// Whether the last character of `s` is `c`.
pub fn ends_with_char(s: &str, c: char) -> (r: bool)
    ensures
        r == chars::ends_with_char(s@, c),
{
    let v = chars_of(s);
    v.len() > 0 && v[v.len() - 1] == c
}

/// What follows `p` in `s`, where `s` begins with `p`.
pub fn strip_prefix(s: &str, p: &str) -> (r: Option<String>)
    ensures
        match r {
            Some(t) => chars::starts_with(s@, p@) && t@ == s@.skip(p@.len() as int),
            None => !chars::starts_with(s@, p@),
        },
{
    if starts_with(s, p) {
        let v = chars_of(s);
        let w = chars_of(p);
        let t = slice(&v, w.len(), v.len());
        assert(t@ =~= s@.skip(p@.len() as int));
        Some(t)
    } else {
        None
    }
}

/// Position, in characters, of the first occurrence of `p` in `s`.
pub fn find(s: &str, p: &str) -> (r: Option<usize>)
    ensures
        match r {
            Some(i) => chars::find(s@, p@) == Some(i as int) && i + p@.len() <= s@.len(),
            None => chars::find(s@, p@) is None,
        },
{
    let v = chars_of(s);
    let w = chars_of(p);
    let mut i: usize = 0;
    assert(v@.skip(0) =~= v@);
    loop
        invariant
            i <= v.len(),
            v@ == s@,
            w@ == p@,
            match chars::find(s@.skip(i as int), p@) {
                Some(k) => chars::find(s@, p@) == Some(k + i),
                None => chars::find(s@, p@) is None,
            },
        decreases v.len() - i,
    {
        let here = occurs_at(&v, &w, i);
        proof {
            let t = s@.skip(i as int);
            if p@.len() <= t.len() {
                assert(t.take(p@.len() as int) =~= s@.subrange(i as int, i + p@.len()));
            }
            assert(here == chars::starts_with(t, p@));
            if i < v.len() {
                assert(t.skip(1) =~= s@.skip(i + 1));
            }
        }
        if here {
            return Some(i);
        }
        if i == v.len() {
            return None;
        }
        i += 1;
    }
}

/// Whether `p` occurs in `s`.
pub fn contains(s: &str, p: &str) -> (r: bool)
    ensures
        r == chars::contains(s@, p@),
{
    proof {
        chars::lemma_find(s@, p@);
    }
    find(s, p).is_some()
}

/// Whether the character `c` occurs in `s`.
pub fn contains_char(s: &str, c: char) -> (r: bool)
    ensures
        r == s@.contains(c),
{
    let v = chars_of(s);
    let mut i: usize = 0;
    while i < v.len()
        invariant
            i <= v.len(),
            v@ == s@,
            forall|j: int| 0 <= j < i ==> v@[j] != c,
        decreases v.len() - i,
    {
        if v[i] == c {
            return true;
        }
        i += 1;
    }
    false
}

/// `s` with every occurrence of `p` replaced by `r`.
pub fn replace(s: &str, p: &str, r: &str) -> (out: String)
    ensures
        out@ == chars::replace(s@, p@, r@),
{
    let v = chars_of(s);
    let w = chars_of(p);
    if w.len() == 0 {
        return s.to_owned();
    }
    let mut out = String::new();
    let mut i: usize = 0;
    assert(v@.skip(0) =~= v@);
    while i < v.len()
        invariant
            i <= v.len(),
            v@ == s@,
            w@ == p@,
            w.len() > 0,
            out@ + chars::replace(s@.skip(i as int), p@, r@) == chars::replace(s@, p@, r@),
        decreases v.len() - i,
    {
        let here = occurs_at(&v, &w, i);
        let ghost t = s@.skip(i as int);
        let ghost before = out@;
        proof {
            if p@.len() <= t.len() {
                assert(t.take(p@.len() as int) =~= s@.subrange(i as int, i + p@.len()));
            }
            assert(here == chars::starts_with(t, p@));
        }
        if here {
            out.push_str(r);
            assert(t.skip(p@.len() as int) =~= s@.skip(i + p@.len()));
            assert(before + (r@ + chars::replace(s@.skip(i + p@.len()), p@, r@)) =~= before + r@
                + chars::replace(s@.skip(i + p@.len()), p@, r@));
            i += w.len();
        } else {
            out.push(v[i]);
            proof {
                let rest = s@.skip(i + 1);
                assert(t.skip(1) =~= rest);
                if t.len() < p@.len() {
                    assert(chars::replace(rest, p@, r@) == rest);
                    assert(t =~= seq![t[0]] + rest);
                }
                assert(before + (seq![t[0]] + chars::replace(rest, p@, r@)) =~= before.push(t[0])
                    + chars::replace(rest, p@, r@));
            }
            i += 1;
        }
    }
    assert(s@.skip(i as int) =~= Seq::<char>::empty());
    assert(out@ + Seq::<char>::empty() =~= out@);
    out
}

/// The finished pieces, then the piece in the making joined to what is left.
spec fn glue(done: Seq<Seq<char>>, cur: Seq<char>, rest: Seq<Seq<char>>) -> Seq<Seq<char>> {
    done + rest.update(0, cur + rest[0])
}

/// The pieces of `s` between the occurrences of `c`.
pub fn split(s: &str, c: char) -> (out: Vec<String>)
    ensures
        chars::views(out@) == chars::split(s@, c),
        out@.len() >= 1,
{
    let v = chars_of(s);
    let mut out: Vec<String> = Vec::new();
    let mut cur = String::new();
    let mut i: usize = 0;
    proof {
        chars::lemma_split_nonempty(s@, c);
        assert(v@.skip(0) =~= v@);
        assert(glue(chars::views(out@), cur@, chars::split(s@, c)) =~= chars::split(s@, c)) by {
            assert(cur@ + chars::split(s@, c)[0] =~= chars::split(s@, c)[0]);
        }
    }
    while i < v.len()
        invariant
            i <= v.len(),
            v@ == s@,
            glue(chars::views(out@), cur@, chars::split(s@.skip(i as int), c)) == chars::split(
                s@,
                c,
            ),
        decreases v.len() - i,
    {
        let ghost done = chars::views(out@);
        let ghost piece = cur@;
        let ghost t = s@.skip(i as int);
        let ghost rest = chars::split(s@.skip(i + 1), c);
        proof {
            assert(t.skip(1) =~= s@.skip(i + 1));
            chars::lemma_split_nonempty(t.skip(1), c);
        }
        if v[i] == c {
            out.push(cur);
            cur = String::new();
            proof {
                assert(chars::views(out@) =~= done.push(piece));
                assert(piece + Seq::<char>::empty() =~= piece);
                assert(cur@ + rest[0] =~= rest[0]);
                assert(glue(done.push(piece), cur@, rest) =~= glue(
                    done,
                    piece,
                    seq![Seq::<char>::empty()] + rest,
                ));
            }
        } else {
            cur.push(v[i]);
            proof {
                assert(piece + (seq![t[0]] + rest[0]) =~= piece.push(t[0]) + rest[0]);
                assert(glue(done, cur@, rest) =~= glue(done, piece, chars::attach(t[0], rest)));
            }
        }
        i += 1;
    }
    let ghost done = chars::views(out@);
    let ghost piece = cur@;
    out.push(cur);
    proof {
        assert(s@.skip(i as int) =~= Seq::<char>::empty());
        assert(piece + Seq::<char>::empty() =~= piece);
        assert(chars::views(out@) =~= done.push(piece));
        assert(glue(done, piece, seq![Seq::<char>::empty()]) =~= done.push(piece));
    }
    out
}

/// The pieces of `s` between the occurrences of `p`.
pub fn split_str(s: &str, p: &str) -> (out: Vec<String>)
    ensures
        chars::views(out@) == chars::split_str(s@, p@),
        out@.len() >= 1,
{
    let v = chars_of(s);
    let w = chars_of(p);
    let mut out: Vec<String> = Vec::new();
    if w.len() == 0 {
        out.push(s.to_owned());
        assert(chars::views(out@) =~= seq![s@]);
        return out;
    }
    let mut cur = String::new();
    let mut i: usize = 0;
    proof {
        chars::lemma_split_str_nonempty(s@, p@);
        assert(v@.skip(0) =~= v@);
        assert(glue(chars::views(out@), cur@, chars::split_str(s@, p@)) =~= chars::split_str(
            s@,
            p@,
        )) by {
            assert(cur@ + chars::split_str(s@, p@)[0] =~= chars::split_str(s@, p@)[0]);
        }
    }
    while i < v.len()
        invariant
            i <= v.len(),
            v@ == s@,
            w@ == p@,
            w.len() > 0,
            glue(chars::views(out@), cur@, chars::split_str(s@.skip(i as int), p@))
                == chars::split_str(s@, p@),
        decreases v.len() - i,
    {
        let here = occurs_at(&v, &w, i);
        let ghost done = chars::views(out@);
        let ghost piece = cur@;
        let ghost t = s@.skip(i as int);
        proof {
            if p@.len() <= t.len() {
                assert(t.take(p@.len() as int) =~= s@.subrange(i as int, i + p@.len()));
            }
            assert(here == chars::starts_with(t, p@));
        }
        if here {
            out.push(cur);
            cur = String::new();
            proof {
                let rest = chars::split_str(s@.skip(i + p@.len()), p@);
                assert(t.skip(p@.len() as int) =~= s@.skip(i + p@.len()));
                chars::lemma_split_str_nonempty(s@.skip(i + p@.len()), p@);
                assert(chars::views(out@) =~= done.push(piece));
                assert(piece + Seq::<char>::empty() =~= piece);
                assert(cur@ + rest[0] =~= rest[0]);
                assert(glue(done.push(piece), cur@, rest) =~= glue(
                    done,
                    piece,
                    seq![Seq::<char>::empty()] + rest,
                ));
            }
            i += w.len();
        } else {
            cur.push(v[i]);
            proof {
                let tail = s@.skip(i + 1);
                let rest = chars::split_str(tail, p@);
                assert(t.skip(1) =~= tail);
                chars::lemma_split_str_nonempty(tail, p@);
                if t.len() < p@.len() {
                    assert(rest =~= seq![tail]);
                    assert(seq![t[0]] + tail =~= t);
                    assert(chars::attach(t[0], rest) =~= seq![t]);
                }
                assert(piece + (seq![t[0]] + rest[0]) =~= piece.push(t[0]) + rest[0]);
                assert(glue(done, cur@, rest) =~= glue(done, piece, chars::attach(t[0], rest)));
            }
            i += 1;
        }
    }
    let ghost done = chars::views(out@);
    let ghost piece = cur@;
    out.push(cur);
    proof {
        assert(s@.skip(i as int) =~= Seq::<char>::empty());
        assert(piece + Seq::<char>::empty() =~= piece);
        assert(chars::views(out@) =~= done.push(piece));
        assert(glue(done, piece, seq![Seq::<char>::empty()]) =~= done.push(piece));
    }
    out
}

/// `line` without the carriage return that may end it.
fn strip_cr(line: &str) -> (r: String)
    ensures
        r@ == chars::strip_cr(line@),
{
    let v = chars_of(line);
    if v.len() > 0 && v[v.len() - 1] == '\r' {
        let r = slice(&v, 0, v.len() - 1);
        assert(r@ =~= line@.drop_last());
        r
    } else {
        line.to_owned()
    }
}

/// The lines of a text.
pub fn lines(s: &str) -> (out: Vec<String>)
    ensures
        chars::views(out@) == chars::lines(s@),
{
    let pieces = split(s, '\n');
    let ghost all = chars::split(s@, '\n');
    let n: usize = pieces.len() - 1;
    let mut out: Vec<String> = Vec::new();
    let mut i: usize = 0;
    while i < n
        invariant
            i <= n,
            n == pieces.len() - 1,
            chars::views(pieces@) == all,
            chars::views(out@) == chars::strip_crs(all.take(i as int)),
        decreases n - i,
    {
        let line = strip_cr(&pieces[i]);
        let ghost before = chars::views(out@);
        out.push(line);
        proof {
            assert(all[i as int] == pieces@[i as int]@);
            assert(chars::views(out@) =~= before.push(line@));
            assert(chars::strip_crs(all.take(i + 1)) =~= chars::strip_crs(all.take(i as int)).push(
                chars::strip_cr(all[i as int]),
            ));
        }
        i += 1;
    }
    assert(all.take(n as int) =~= all.drop_last());
    assert(all.last() == pieces@[n as int]@);
    if !pieces[n].as_str().is_empty() {
        let ghost before = chars::views(out@);
        out.push(pieces[n].clone());
        assert(chars::views(out@) =~= before.push(pieces@[n as int]@));
    }
    out
}

/// Whether a character has the Unicode `White_Space` property.
pub fn is_whitespace(c: char) -> (r: bool)
    ensures
        r == chars::is_whitespace(c),
{
    let n: u32 = c as u32;
    (0x09 <= n && n <= 0x0D) || n == 0x20 || n == 0x85 || n == 0xA0 || n == 0x1680 || (0x2000 <= n
        && n <= 0x200A) || n == 0x2028 || n == 0x2029 || n == 0x202F || n == 0x205F || n == 0x3000
}

/// `s` without leading whitespace.
pub fn trim_start(s: &str) -> (r: String)
    ensures
        r@ == chars::trim_start(s@),
{
    let v = chars_of(s);
    let mut i: usize = 0;
    assert(v@.skip(0) =~= v@);
    while i < v.len() && is_whitespace(v[i])
        invariant
            i <= v.len(),
            v@ == s@,
            chars::trim_start(s@.skip(i as int)) == chars::trim_start(s@),
        decreases v.len() - i,
    {
        assert(s@.skip(i as int).skip(1) =~= s@.skip(i + 1));
        i += 1;
    }
    let r = slice(&v, i, v.len());
    assert(r@ =~= s@.skip(i as int));
    r
}

/// `s` without trailing whitespace.
pub fn trim_end(s: &str) -> (r: String)
    ensures
        r@ == chars::trim_end(s@),
{
    let v = chars_of(s);
    let mut i: usize = v.len();
    assert(v@.take(v@.len() as int) =~= v@);
    while i > 0 && is_whitespace(v[i - 1])
        invariant
            i <= v.len(),
            v@ == s@,
            chars::trim_end(s@.take(i as int)) == chars::trim_end(s@),
        decreases i,
    {
        assert(s@.take(i as int).drop_last() =~= s@.take(i - 1));
        i -= 1;
    }
    let r = slice(&v, 0, i);
    assert(r@ =~= s@.take(i as int));
    r
}

/// `s` without leading and trailing whitespace.
pub fn trim(s: &str) -> (r: String)
    ensures
        r@ == chars::trim(s@),
{
    trim_end(&trim_start(s))
}

/// `s` without any leading `c`.
pub fn trim_start_char(s: &str, c: char) -> (r: String)
    ensures
        r@ == chars::trim_start_char(s@, c),
{
    let v = chars_of(s);
    let mut i: usize = 0;
    assert(v@.skip(0) =~= v@);
    while i < v.len() && v[i] == c
        invariant
            i <= v.len(),
            v@ == s@,
            chars::trim_start_char(s@.skip(i as int), c) == chars::trim_start_char(s@, c),
        decreases v.len() - i,
    {
        assert(s@.skip(i as int).skip(1) =~= s@.skip(i + 1));
        i += 1;
    }
    let r = slice(&v, i, v.len());
    assert(r@ =~= s@.skip(i as int));
    r
}

/// `s` without any trailing `c`.
pub fn trim_end_char(s: &str, c: char) -> (r: String)
    ensures
        r@ == chars::trim_end_char(s@, c),
{
    let v = chars_of(s);
    let mut i: usize = v.len();
    assert(v@.take(v@.len() as int) =~= v@);
    while i > 0 && v[i - 1] == c
        invariant
            i <= v.len(),
            v@ == s@,
            chars::trim_end_char(s@.take(i as int), c) == chars::trim_end_char(s@, c),
        decreases i,
    {
        assert(s@.take(i as int).drop_last() =~= s@.take(i - 1));
        i -= 1;
    }
    let r = slice(&v, 0, i);
    assert(r@ =~= s@.take(i as int));
    r
}

/// The maximal runs of non-whitespace.
pub fn words(s: &str) -> (out: Vec<String>)
    ensures
        chars::views(out@) == chars::words(s@),
{
    let v = chars_of(s);
    let mut out: Vec<String> = Vec::new();
    let mut i: usize = 0;
    assert(v@.skip(0) =~= v@);
    assert(chars::views(out@) + chars::words(s@) =~= chars::words(s@));
    while i < v.len()
        invariant
            i <= v.len(),
            v@ == s@,
            chars::views(out@) + chars::words(s@.skip(i as int)) == chars::words(s@),
        decreases v.len() - i,
    {
        let ghost t = s@.skip(i as int);
        if is_whitespace(v[i]) {
            assert(t.skip(1) =~= s@.skip(i + 1));
            i += 1;
        } else {
            let start: usize = i;
            i += 1;
            while i < v.len() && !is_whitespace(v[i])
                invariant
                    start < i <= v.len(),
                    v@ == s@,
                    forall|j: int| start <= j < i ==> !chars::is_whitespace(#[trigger] v@[j]),
                decreases v.len() - i,
            {
                i += 1;
            }
            let word = slice(&v, start, i);
            let ghost before = chars::views(out@);
            out.push(word);
            proof {
                let n = i - start;
                chars::lemma_word_len(t);
                let m = chars::word_len(t) as int;
                if m < n {
                    assert(t[m] == v@[start + m]);
                } else if n < m {
                    assert(t[n] == v@[i as int]);
                }
                assert(t.take(n) =~= v@.subrange(start as int, i as int));
                assert(t.skip(n) =~= s@.skip(i as int));
                assert(chars::views(out@) =~= before.push(word@));
                assert(before + (seq![word@] + chars::words(s@.skip(i as int))) =~= before.push(
                    word@,
                ) + chars::words(s@.skip(i as int)));
            }
        }
    }
    assert(s@.skip(i as int) =~= Seq::<char>::empty());
    assert(chars::views(out@) + Seq::<Seq<char>>::empty() =~= chars::views(out@));
    out
}

/// The pieces with `sep` between each two of them.
pub fn join(pieces: &Vec<String>, sep: &str) -> (out: String)
    ensures
        out@ == chars::join(chars::views(pieces@), sep@),
{
    let ghost all = chars::views(pieces@);
    let mut out = String::new();
    let mut i: usize = 0;
    while i < pieces.len()
        invariant
            i <= pieces.len(),
            all == chars::views(pieces@),
            out@ == chars::join(all.take(i as int), sep@),
        decreases pieces.len() - i,
    {
        if i > 0 {
            out.push_str(sep);
        }
        out.push_str(&pieces[i]);
        proof {
            assert(all.take(i + 1).drop_last() =~= all.take(i as int));
            assert(all[i as int] == pieces@[i as int]@);
            if i == 0 {
                assert(out@ =~= all[0]);
            }
        }
        i += 1;
    }
    assert(all.take(i as int) =~= all);
    out
}

/// The pieces one after another.
pub fn concat(pieces: &Vec<String>) -> (out: String)
    ensures
        out@ == chars::concat(chars::views(pieces@)),
{
    let ghost all = chars::views(pieces@);
    let mut out = String::new();
    let mut i: usize = 0;
    while i < pieces.len()
        invariant
            i <= pieces.len(),
            all == chars::views(pieces@),
            out@ == chars::concat(all.take(i as int)),
        decreases pieces.len() - i,
    {
        out.push_str(&pieces[i]);
        assert(all.take(i + 1).drop_last() =~= all.take(i as int));
        assert(all[i as int] == pieces@[i as int]@);
        i += 1;
    }
    assert(all.take(i as int) =~= all);
    out
}

/// Length of a text in UTF-8.
pub fn byte_len(s: &str) -> (n: usize)
    ensures
        n == chars::byte_len(s@),
{
    s.as_bytes().len()
}

/// The character of a digit.
fn digit(d: u8) -> (c: char)
    requires
        d < 10,
    ensures
        c == chars::digit(d as nat),
{
    (48 + d) as char
}

/// A number in decimal, without leading zeros.
pub fn decimal(n: u64) -> (r: String)
    ensures
        r@ == chars::decimal(n as nat),
    decreases n,
{
    if n < 10 {
        let mut r = String::new();
        r.push(digit(n as u8));
        assert(r@ =~= seq![chars::digit(n as nat)]);
        r
    } else {
        let mut r = decimal(n / 10);
        r.push(digit((n % 10) as u8));
        r
    }
}

/// An integer in decimal, with a minus sign where it is negative.
pub fn signed_decimal(n: i32) -> (r: String)
    ensures
        r@ == chars::signed_decimal(n as int),
{
    if n < 0 {
        let mut r = String::new();
        r.push('-');
        r.push_str(&decimal((-(n as i64)) as u64));
        assert(r@ =~= seq!['-'] + chars::decimal((-n) as nat));
        r
    } else {
        decimal(n as u64)
    }
}

/// The number that `s` writes in decimal, with one optional leading `+`, where
/// it is at most `max`.
pub fn parse(s: &str, max: u64) -> (r: Option<u64>)
    ensures
        match r {
            Some(n) => chars::parse(s@, max as nat) == Some(n as nat),
            None => chars::parse(s@, max as nat) is None,
        },
{
    let v = chars_of(s);
    let start: usize = if v.len() > 0 && v[0] == '+' {
        1
    } else {
        0
    };
    let ghost body = s@.skip(start as int);
    assert(start == 0 ==> body =~= s@);
    if start == v.len() {
        return None;
    }
    let mut n: u64 = 0;
    let mut i: usize = start;
    while i < v.len()
        invariant
            start <= i <= v.len(),
            v@ == s@,
            body == s@.skip(start as int),
            n <= max,
            n == chars::digits_value(body.take(i - start)),
            forall|j: int| 0 <= j < i - start ==> #[trigger] chars::is_digit(body[j]),
            body == (if s@.len() > 0 && s@[0] == '+' {
                s@.skip(1)
            } else {
                s@
            }),
        decreases v.len() - i,
    {
        let c = v[i];
        assert(c == body[i - start]);
        if !('0' <= c && c <= '9') {
            assert(!chars::is_digit(body[i - start]));
            return None;
        }
        let d: u64 = c as u64 - 48;
        proof {
            assert(body.take(i + 1 - start) =~= body.take(i - start).push(c));
            chars::lemma_digits_value_push(body.take(i - start), c);
            chars::lemma_digits_value_monotone(body, i + 1 - start);
        }
        if d > max || n > (max - d) / 10 {
            return None;
        }
        n = 10 * n + d;
        i += 1;
    }
    assert(body.take(i - start) =~= body);
    Some(n)
}

/// Whether `a` stands before `b` in the order of code points.
pub fn less(a: &str, b: &str) -> (r: bool)
    ensures
        r == chars::less(a@, b@),
{
    let v = chars_of(a);
    let w = chars_of(b);
    let mut i: usize = 0;
    assert(v@.skip(0) =~= v@);
    assert(w@.skip(0) =~= w@);
    while i < v.len() && i < w.len()
        invariant
            i <= v.len(),
            i <= w.len(),
            v@ == a@,
            w@ == b@,
            chars::less(a@, b@) == chars::less(a@.skip(i as int), b@.skip(i as int)),
        decreases v.len() - i,
    {
        assert(a@.skip(i as int).skip(1) =~= a@.skip(i + 1));
        assert(b@.skip(i as int).skip(1) =~= b@.skip(i + 1));
        if v[i] != w[i] {
            return v[i] < w[i];
        }
        i += 1;
    }
    i < w.len()
}

/// Two texts one after another.
pub fn cat2(a: &str, b: &str) -> (r: String)
    ensures
        r@ == a@ + b@,
{
    let mut r = a.to_owned();
    r.push_str(b);
    r
}

/// Three texts one after another.
pub fn cat3(a: &str, b: &str, c: &str) -> (r: String)
    ensures
        r@ == a@ + b@ + c@,
{
    let mut r = cat2(a, b);
    r.push_str(c);
    r
}

/// Four texts one after another.
pub fn cat4(a: &str, b: &str, c: &str, d: &str) -> (r: String)
    ensures
        r@ == a@ + b@ + c@ + d@,
{
    let mut r = cat3(a, b, c);
    r.push_str(d);
    r
}

/// A copy of an optional text.
pub fn copy_opt(o: &Option<String>) -> (r: Option<String>)
    ensures
        r == *o,
{
    match o {
        Some(s) => Some(s.clone()),
        None => None,
    }
}

/// A copy of a list of texts.
pub fn copy_list(v: &Vec<String>) -> (r: Vec<String>)
    ensures
        chars::views(r@) == chars::views(v@),
{
    let r = v.clone();
    assert(chars::views(r@) =~= chars::views(v@));
    r
}

/// Adds copies of texts to a list.
pub fn append(v: &mut Vec<String>, more: &Vec<String>)
    ensures
        chars::views(final(v)@) == chars::views(old(v)@) + chars::views(more@),
{
    let ghost before = chars::views(v@);
    let mut i: usize = 0;
    while i < more.len()
        invariant
            i <= more.len(),
            chars::views(v@) =~= before + chars::views(more@).take(i as int),
        decreases more.len() - i,
    {
        let ghost sofar = chars::views(v@);
        v.push(more[i].clone());
        assert(chars::views(v@) =~= sofar.push(more@[i as int]@));
        assert(chars::views(more@)[i as int] == more@[i as int]@);
        i += 1;
    }
    assert(chars::views(more@).take(i as int) =~= chars::views(more@));
}

/// A list of texts as a list of strings.
pub fn list(v: Vec<&str>) -> (r: Vec<String>)
    ensures
        chars::views(r@) == Seq::new(v@.len(), |i: int| v@[i]@),
{
    let mut r: Vec<String> = Vec::new();
    let mut i: usize = 0;
    while i < v.len()
        invariant
            i <= v.len(),
            r@.len() == i,
            forall|j: int| 0 <= j < i ==> (#[trigger] r@[j])@ == v@[j]@,
        decreases v.len() - i,
    {
        r.push(v[i].to_owned());
        i += 1;
    }
    assert(chars::views(r@) =~= Seq::new(v@.len(), |i: int| v@[i]@));
    r
}

/// The texts that say something.
pub fn nonempty(v: &Vec<String>) -> (r: Vec<String>)
    ensures
        chars::views(r@) == chars::nonempty(chars::views(v@)),
{
    let ghost all = chars::views(v@);
    let mut r: Vec<String> = Vec::new();
    let mut i: usize = 0;
    assert(chars::views(r@) =~= chars::nonempty(all.take(0)));
    while i < v.len()
        invariant
            i <= v.len(),
            all == chars::views(v@),
            chars::views(r@) == chars::nonempty(all.take(i as int)),
        decreases v.len() - i,
    {
        let ghost before = chars::views(r@);
        assert(all.take(i + 1).drop_last() =~= all.take(i as int));
        assert(all[i as int] == v@[i as int]@);
        if !v[i].as_str().is_empty() {
            r.push(v[i].clone());
            assert(chars::views(r@) =~= before.push(all[i as int]));
        }
        i += 1;
    }
    assert(all.take(i as int) =~= all);
    r
}

} // verus!
