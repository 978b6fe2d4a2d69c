//! File paths as text with `/` as the separator, which also begins an absolute
//! path.
//!
//! A path means its sequence of components: repeated separators and inner `.`
//! components do not count, `..` stays. Two paths with the same components are
//! the same path, and paths are ordered component by component.

use crate::chars;
use crate::text;
use vstd::prelude::*;

verus! {

/// The component of the file system root.
pub open spec fn root_part() -> Seq<char> {
    seq!['/']
}

/// The component that names the directory itself.
pub open spec fn here_part() -> Seq<char> {
    seq!['.']
}

/// The component that names the parent directory.
pub open spec fn parent_part() -> Seq<char> {
    seq!['.', '.']
}

/// The path starts at the root.
pub open spec fn rooted(s: Seq<char>) -> bool {
    s.len() > 0 && s[0] == '/'
}

/// A piece between separators that counts wherever it stands.
pub open spec fn counts(p: Seq<char>) -> bool {
    p.len() > 0 && p != here_part()
}

/// The pieces that count wherever they stand.
pub open spec fn counting(pieces: Seq<Seq<char>>) -> Seq<Seq<char>> {
    pieces.filter(|p: Seq<char>| counts(p))
}

/// The components of a path.
pub open spec fn parts(s: Seq<char>) -> Seq<Seq<char>> {
    let pieces = chars::split(s, '/');
    if rooted(s) {
        seq![root_part()] + counting(pieces)
    } else if pieces[0] == here_part() {
        seq![here_part()] + counting(pieces)
    } else {
        counting(pieces)
    }
}

proof fn lemma_counting_push(pieces: Seq<Seq<char>>, p: Seq<char>)
    ensures
        counting(pieces.push(p)) == if counts(p) {
            counting(pieces).push(p)
        } else {
            counting(pieces)
        },
{
    pieces.lemma_filter_push(p, |q: Seq<char>| counts(q));
}

/// A component that names an entry, rather than the root, `.` or `..`.
pub open spec fn names_entry(p: Seq<char>) -> bool {
    p != root_part() && p != here_part() && p != parent_part()
}

/// The path that has the given components, in its plainest writing.
pub open spec fn written(ps: Seq<Seq<char>>) -> Seq<char> {
    if ps.len() > 0 && ps[0] == root_part() {
        root_part() + chars::join(ps.skip(1), seq!['/'])
    } else {
        chars::join(ps, seq!['/'])
    }
}

/// The last component, where it names an entry.
pub open spec fn base_name(s: Seq<char>) -> Option<Seq<char>> {
    let ps = parts(s);
    if ps.len() > 0 && names_entry(ps.last()) {
        Some(ps.last())
    } else {
        None
    }
}

/// A name put below a directory is the last component of the path.
pub proof fn joined_name_is_last(dir: Seq<char>, name: Seq<char>)
    requires
        !name.contains('/'),
        counts(name),
        names_entry(name),
    ensures
        base_name(joined(dir, name)) == Some(name),
{
    let s = joined(dir, name);
    let pieces = chars::split(s, '/');
    assert(name.contains(name[0]));
    chars::lemma_split_single(name, '/');
    let before: Seq<Seq<char>> = if dir.len() == 0 {
        Seq::empty()
    } else if dir.last() == '/' {
        chars::split(dir.drop_last(), '/')
    } else {
        chars::split(dir, '/')
    };
    assert(pieces =~= before.push(name)) by {
        if dir.len() == 0 {
            assert(s =~= name);
        } else if dir.last() == '/' {
            chars::lemma_split_append(dir.drop_last(), '/', name);
            assert(dir.drop_last().push('/') + name =~= s);
        } else {
            chars::lemma_split_append(dir, '/', name);
        }
    }
    lemma_counting_push(before, name);
    assert(parts(s).last() == name);
}

/// What follows the last dot of the last component, unless that dot is its
/// first character.
pub open spec fn suffix(s: Seq<char>) -> Option<Seq<char>> {
    match base_name(s) {
        Some(name) => match chars::rfind_char(name, '.') {
            Some(i) => if i > 0 {
                Some(name.skip(i + 1))
            } else {
                None
            },
            None => None,
        },
        None => None,
    }
}

/// `b` taken as a path from `a`.
pub open spec fn joined(a: Seq<char>, b: Seq<char>) -> Seq<char> {
    if rooted(b) {
        b
    } else if a.len() > 0 && a.last() != '/' {
        a.push('/') + b
    } else {
        a + b
    }
}

/// The components of `s` begin with those of `base`.
pub open spec fn within(s: Seq<char>, base: Seq<char>) -> bool {
    parts(base).is_prefix_of(parts(s))
}

/// The path from `base` to `s`, where `s` lies within `base`.
pub open spec fn relative(s: Seq<char>, base: Seq<char>) -> Option<Seq<char>> {
    if within(s, base) {
        Some(written(parts(s).skip(parts(base).len() as int)))
    } else {
        None
    }
}

/// The components with `.` left out and each `..` resolved against what stands
/// before it; nothing where a `..` would leave the root or the start.
pub open spec fn resolved(ps: Seq<Seq<char>>) -> Option<Seq<Seq<char>>>
    decreases ps.len(),
{
    if ps.len() == 0 {
        Some(Seq::empty())
    } else {
        match resolved(ps.drop_last()) {
            None => None,
            Some(stack) => if ps.last() == here_part() {
                Some(stack)
            } else if ps.last() == parent_part() {
                if stack.len() > 0 && stack.last() != root_part() {
                    Some(stack.drop_last())
                } else {
                    None
                }
            } else {
                Some(stack.push(ps.last()))
            },
        }
    }
}

/// Order of the kinds of component.
pub open spec fn rank(p: Seq<char>) -> int {
    if p == root_part() {
        0
    } else if p == here_part() {
        1
    } else if p == parent_part() {
        2
    } else {
        3
    }
}

/// Order of components.
pub open spec fn part_less(a: Seq<char>, b: Seq<char>) -> bool {
    rank(a) < rank(b) || (rank(a) == 3 && rank(b) == 3 && chars::less(a, b))
}

/// Lexicographic order of component sequences.
pub open spec fn parts_less(a: Seq<Seq<char>>, b: Seq<Seq<char>>) -> bool
    decreases a.len(),
{
    if b.len() == 0 {
        false
    } else if a.len() == 0 {
        true
    } else if a[0] != b[0] {
        part_less(a[0], b[0])
    } else {
        parts_less(a.skip(1), b.skip(1))
    }
}

/// Order of paths.
pub open spec fn path_less(a: Seq<char>, b: Seq<char>) -> bool {
    parts_less(parts(a), parts(b))
}

/// Whether a path starts at the root.
pub fn is_absolute(s: &str) -> (r: bool)
    ensures
        r == rooted(s@),
{
    let v = text::chars_of(s);
    v.len() > 0 && v[0] == '/'
}

/// The components of a path.
pub fn components(s: &str) -> (out: Vec<String>)
    ensures
        chars::views(out@) == parts(s@),
{
    proof {
        reveal_strlit("/");
        reveal_strlit(".");
        assert("/"@ =~= root_part());
        assert("."@ =~= here_part());
    }
    let pieces = text::split(s, '/');
    let ghost all = chars::split(s@, '/');
    let mut out: Vec<String> = Vec::new();
    assert(all[0] == pieces@[0]@);
    if is_absolute(s) {
        out.push("/".to_owned());
        assert(chars::views(out@) =~= seq![root_part()]);
    } else if text::same(&pieces[0], ".") {
        out.push(".".to_owned());
        assert(chars::views(out@) =~= seq![here_part()]);
    }
    let ghost head = chars::views(out@);
    let mut i: usize = 0;
    assert(counting(all.take(0)) =~= Seq::empty()) by {
        reveal(Seq::filter);
    }
    while i < pieces.len()
        invariant
            i <= pieces.len(),
            all == chars::views(pieces@),
            "."@ == here_part(),
            chars::views(out@) =~= head + counting(all.take(i as int)),
        decreases pieces.len() - i,
    {
        let ghost before = chars::views(out@);
        assert(all.take(i + 1) =~= all.take(i as int).push(all[i as int]));
        assert(all[i as int] == pieces@[i as int]@);
        proof {
            lemma_counting_push(all.take(i as int), all[i as int]);
        }
        if !pieces[i].as_str().is_empty() && !text::same(&pieces[i], ".") {
            out.push(pieces[i].clone());
            assert(chars::views(out@) =~= before.push(all[i as int]));
        }
        i += 1;
    }
    assert(all.take(i as int) =~= all);
    assert(!rooted(s@) && all[0] != here_part() ==> head + counting(all) =~= counting(all));
    out
}

/// The path that has the given components, in its plainest writing.
fn write(ps: &Vec<String>, from: usize) -> (out: String)
    requires
        from <= ps.len(),
    ensures
        out@ == written(chars::views(ps@).skip(from as int)),
{
    proof {
        reveal_strlit("/");
        assert("/"@ =~= root_part());
    }
    let ghost all = chars::views(ps@).skip(from as int);
    let mut out = String::new();
    let mut rest: Vec<String> = Vec::new();
    let mut i: usize = from;
    if from < ps.len() {
        assert(all[0] == ps@[from as int]@);
    }
    let at_root = from < ps.len() && text::same(&ps[from], "/");
    if at_root {
        out.push('/');
        i = from + 1;
    }
    let ghost start = i;
    while i < ps.len()
        invariant
            from <= start <= i <= ps.len(),
            chars::views(rest@) =~= chars::views(ps@).subrange(start as int, i as int),
        decreases ps.len() - i,
    {
        let ghost before = chars::views(rest@);
        rest.push(ps[i].clone());
        assert(chars::views(rest@) =~= before.push(ps@[i as int]@));
        i += 1;
    }
    let tail = text::join(&rest, "/");
    let ghost head = out@;
    out.push_str(&tail);
    proof {
        if at_root {
            assert(chars::views(rest@) =~= all.skip(1));
            assert(head =~= root_part());
        } else {
            assert(chars::views(rest@) =~= all);
            assert(head + tail@ =~= tail@);
        }
    }
    out
}

/// The last component, where it names an entry.
pub fn file_name(s: &str) -> (r: Option<String>)
    ensures
        chars::opt_view(r) == base_name(s@),
{
    proof {
        reveal_strlit("/");
        reveal_strlit(".");
        reveal_strlit("..");
        assert("/"@ =~= root_part());
        assert("."@ =~= here_part());
        assert(".."@ =~= parent_part());
    }
    let ps = components(s);
    if ps.len() == 0 {
        return None;
    }
    let last = &ps[ps.len() - 1];
    assert(parts(s@).last() == last@);
    if text::same(last, "/") || text::same(last, ".") || text::same(last, "..") {
        None
    } else {
        Some(last.clone())
    }
}

/// What follows the last dot of the last component, unless that dot is its
/// first character.
pub fn extension(s: &str) -> (r: Option<String>)
    ensures
        chars::opt_view(r) == suffix(s@),
{
    let name = match file_name(s) {
        Some(name) => name,
        None => {
            return None;
        },
    };
    let v = text::chars_of(&name);
    let mut i: usize = v.len();
    assert(v@.take(v@.len() as int) =~= v@);
    while i > 0
        invariant
            i <= v.len(),
            v@ == name@,
            base_name(s@) == Some(name@),
            chars::rfind_char(name@.take(i as int), '.') == chars::rfind_char(name@, '.'),
        decreases i,
    {
        i -= 1;
        assert(name@.take(i + 1).drop_last() =~= name@.take(i as int));
        if v[i] == '.' {
            if i == 0 {
                return None;
            }
            let r = text::slice(&v, i + 1, v.len());
            assert(r@ =~= name@.skip(i + 1));
            return Some(r);
        }
    }
    None
}

/// `b` taken as a path from `a`.
pub fn join(a: &str, b: &str) -> (r: String)
    ensures
        r@ == joined(a@, b@),
{
    if is_absolute(b) {
        return b.to_owned();
    }
    let mut r = a.to_owned();
    if !a.is_empty() && !text::ends_with_char(a, '/') {
        r.push('/');
    }
    r.push_str(b);
    r
}

/// The path from `base` to `s`, where `s` lies within `base`.
pub fn strip_prefix(s: &str, base: &str) -> (r: Option<String>)
    ensures
        chars::opt_view(r) == relative(s@, base@),
{
    let ps = components(s);
    let bs = components(base);
    if bs.len() > ps.len() {
        return None;
    }
    let mut i: usize = 0;
    while i < bs.len()
        invariant
            i <= bs.len() <= ps.len(),
            chars::views(ps@) == parts(s@),
            chars::views(bs@) == parts(base@),
            forall|j: int| 0 <= j < i ==> parts(s@)[j] == parts(base@)[j],
        decreases bs.len() - i,
    {
        assert(parts(s@)[i as int] == ps@[i as int]@);
        assert(parts(base@)[i as int] == bs@[i as int]@);
        if !text::same(&ps[i], &bs[i]) {
            assert(parts(s@).subrange(0, parts(base@).len() as int)[i as int]
                == parts(s@)[i as int]);
            return None;
        }
        i += 1;
    }
    assert(parts(base@) =~= parts(s@).subrange(0, parts(base@).len() as int));
    Some(write(&ps, bs.len()))
}

/// The path with `.` left out and each `..` resolved, in its plainest writing.
pub fn normalize(s: &str) -> (r: Option<String>)
    ensures
        match r {
            Some(t) => resolved(parts(s@)) is Some && t@ == written(resolved(parts(s@))->0),
            None => resolved(parts(s@)) is None,
        },
{
    proof {
        reveal_strlit("/");
        reveal_strlit(".");
        reveal_strlit("..");
        assert("/"@ =~= root_part());
        assert("."@ =~= here_part());
        assert(".."@ =~= parent_part());
    }
    let ps = components(s);
    let ghost all = parts(s@);
    let mut stack: Vec<String> = Vec::new();
    let mut i: usize = 0;
    assert(chars::views(stack@) =~= Seq::empty());
    while i < ps.len()
        invariant
            i <= ps.len(),
            chars::views(ps@) == all,
            all == parts(s@),
            "/"@ == root_part(),
            "."@ == here_part(),
            ".."@ == parent_part(),
            resolved(all.take(i as int)) == Some(chars::views(stack@)),
        decreases ps.len() - i,
    {
        let ghost before = chars::views(stack@);
        assert(all.take(i + 1).drop_last() =~= all.take(i as int));
        assert(all[i as int] == ps@[i as int]@);
        if text::same(&ps[i], ".") {
        } else if text::same(&ps[i], "..") {
            if stack.len() > 0 {
                assert(before.last() == stack@[stack@.len() - 1]@);
            }
            if stack.len() == 0 || text::same(&stack[stack.len() - 1], "/") {
                proof {
                    lemma_resolved_none(all, i + 1);
                }
                return None;
            }
            stack.pop();
            assert(chars::views(stack@) =~= before.drop_last());
        } else {
            stack.push(ps[i].clone());
            assert(chars::views(stack@) =~= before.push(all[i as int]));
        }
        i += 1;
    }
    assert(all.take(i as int) =~= all);
    assert(chars::views(stack@).skip(0) =~= chars::views(stack@));
    Some(write(&stack, 0))
}

proof fn lemma_resolved_none(ps: Seq<Seq<char>>, i: int)
    requires
        0 <= i <= ps.len(),
        resolved(ps.take(i)) is None,
    ensures
        resolved(ps) is None,
    decreases ps.len() - i,
{
    if i < ps.len() {
        assert(ps.take(i + 1).drop_last() =~= ps.take(i));
        lemma_resolved_none(ps, i + 1);
    } else {
        assert(ps.take(i) =~= ps);
    }
}

fn rank_of(p: &str) -> (r: u8)
    ensures
        r == rank(p@),
{
    proof {
        reveal_strlit("/");
        reveal_strlit(".");
        reveal_strlit("..");
        assert("/"@ =~= root_part());
        assert("."@ =~= here_part());
        assert(".."@ =~= parent_part());
    }
    if text::same(p, "/") {
        0
    } else if text::same(p, ".") {
        1
    } else if text::same(p, "..") {
        2
    } else {
        3
    }
}

/// Whether two texts are the same path.
pub fn same_path(a: &str, b: &str) -> (r: bool)
    ensures
        r == (parts(a@) == parts(b@)),
{
    let x = components(a);
    let y = components(b);
    if x.len() != y.len() {
        assert(parts(a@).len() != parts(b@).len());
        return false;
    }
    let mut i: usize = 0;
    while i < x.len()
        invariant
            i <= x.len() == y.len(),
            chars::views(x@) == parts(a@),
            chars::views(y@) == parts(b@),
            forall|j: int| 0 <= j < i ==> parts(a@)[j] == parts(b@)[j],
        decreases x.len() - i,
    {
        assert(parts(a@)[i as int] == x@[i as int]@);
        assert(parts(b@)[i as int] == y@[i as int]@);
        if !text::same(&x[i], &y[i]) {
            return false;
        }
        i += 1;
    }
    assert(parts(a@) =~= parts(b@));
    true
}

/// Whether the path `a` stands before the path `b`.
pub fn less(a: &str, b: &str) -> (r: bool)
    ensures
        r == path_less(a@, b@),
{
    let x = components(a);
    let y = components(b);
    let ghost p = parts(a@);
    let ghost q = parts(b@);
    let mut i: usize = 0;
    assert(p.skip(0) =~= p);
    assert(q.skip(0) =~= q);
    while i < x.len() && i < y.len()
        invariant
            i <= x.len(),
            i <= y.len(),
            p == parts(a@),
            q == parts(b@),
            chars::views(x@) == p,
            chars::views(y@) == q,
            parts_less(p, q) == parts_less(p.skip(i as int), q.skip(i as int)),
        decreases x.len() - i,
    {
        assert(p[i as int] == x@[i as int]@);
        assert(q[i as int] == y@[i as int]@);
        assert(p.skip(i as int).skip(1) =~= p.skip(i + 1));
        assert(q.skip(i as int).skip(1) =~= q.skip(i + 1));
        if !text::same(&x[i], &y[i]) {
            let m = rank_of(&x[i]);
            let n = rank_of(&y[i]);
            return m < n || (m == 3 && n == 3 && text::less(&x[i], &y[i]));
        }
        i += 1;
    }
    i < y.len()
}

/// The order of code points is total.
proof fn lemma_less_total(a: Seq<char>, b: Seq<char>)
    ensures
        a == b || chars::less(a, b) || chars::less(b, a),
        !chars::less(a, a),
    decreases a.len(),
{
    if a.len() > 0 {
        lemma_less_total(a.skip(1), a.skip(1));
        if b.len() > 0 && a[0] == b[0] {
            lemma_less_total(a.skip(1), b.skip(1));
            if a.skip(1) == b.skip(1) {
                assert(a =~= seq![a[0]] + a.skip(1));
                assert(b =~= seq![b[0]] + b.skip(1));
            }
        }
    } else if b.len() == 0 {
        assert(a =~= b);
    }
}

proof fn lemma_less_transitive(a: Seq<char>, b: Seq<char>, c: Seq<char>)
    requires
        chars::less(a, b),
        chars::less(b, c),
    ensures
        chars::less(a, c),
    decreases a.len(),
{
    if a.len() > 0 && a[0] == b[0] && b[0] == c[0] {
        lemma_less_transitive(a.skip(1), b.skip(1), c.skip(1));
    }
}

proof fn lemma_parts_less_total(a: Seq<Seq<char>>, b: Seq<Seq<char>>)
    ensures
        a == b || parts_less(a, b) || parts_less(b, a),
        !parts_less(a, a),
    decreases a.len(),
{
    if a.len() > 0 {
        lemma_parts_less_total(a.skip(1), a.skip(1));
        if b.len() > 0 {
            lemma_less_total(a[0], b[0]);
            if a[0] == b[0] {
                lemma_parts_less_total(a.skip(1), b.skip(1));
                if a.skip(1) == b.skip(1) {
                    assert(a =~= seq![a[0]] + a.skip(1));
                    assert(b =~= seq![b[0]] + b.skip(1));
                }
            }
        }
    } else if b.len() == 0 {
        assert(a =~= b);
    }
}

proof fn lemma_part_less_transitive(a: Seq<char>, b: Seq<char>, c: Seq<char>)
    requires
        part_less(a, b),
        part_less(b, c),
    ensures
        part_less(a, c),
        a != c,
{
    if rank(a) == 3 && rank(c) == 3 {
        lemma_less_transitive(a, b, c);
        lemma_less_total(a, c);
    }
}

proof fn lemma_parts_less_transitive(a: Seq<Seq<char>>, b: Seq<Seq<char>>, c: Seq<Seq<char>>)
    requires
        parts_less(a, b),
        parts_less(b, c),
    ensures
        parts_less(a, c),
    decreases a.len(),
{
    if a.len() > 0 {
        if a[0] == b[0] && b[0] == c[0] {
            lemma_parts_less_transitive(a.skip(1), b.skip(1), c.skip(1));
        } else if a[0] != b[0] && b[0] != c[0] {
            lemma_part_less_transitive(a[0], b[0], c[0]);
        }
    }
}

/// The order of paths is strict and total: of two paths, either they have the
/// same components or exactly one stands before the other.
pub proof fn path_order_is_total(a: Seq<char>, b: Seq<char>)
    ensures
        parts(a) == parts(b) || path_less(a, b) || path_less(b, a),
        !(path_less(a, b) && path_less(b, a)),
        parts(a) == parts(b) ==> !path_less(a, b),
{
    lemma_parts_less_total(parts(a), parts(b));
    if path_less(a, b) && path_less(b, a) {
        lemma_parts_less_transitive(parts(a), parts(b), parts(a));
    }
}

/// The order of paths is transitive.
pub proof fn path_order_is_transitive(a: Seq<char>, b: Seq<char>, c: Seq<char>)
    requires
        path_less(a, b),
        path_less(b, c),
    ensures
        path_less(a, c),
{
    lemma_parts_less_transitive(parts(a), parts(b), parts(c));
}

/// `p` put at its place in an increasing list of paths, unless a path with the
/// same components is already there.
pub open spec fn inserted(s: Seq<Seq<char>>, p: Seq<char>) -> Seq<Seq<char>>
    decreases s.len(),
{
    if s.len() == 0 {
        seq![p]
    } else if parts(p) == parts(s[0]) {
        s
    } else if path_less(p, s[0]) {
        seq![p] + s
    } else {
        seq![s[0]] + inserted(s.skip(1), p)
    }
}

/// The paths of `more` put one after another into the increasing list `s`.
pub open spec fn inserted_all(s: Seq<Seq<char>>, more: Seq<Seq<char>>) -> Seq<Seq<char>>
    decreases more.len(),
{
    if more.len() == 0 {
        s
    } else {
        inserted(inserted_all(s, more.drop_last()), more.last())
    }
}

/// Each path stands before all that follow it.
pub open spec fn increasing(s: Seq<Seq<char>>) -> bool {
    forall|i: int, j: int| 0 <= i < j < s.len() ==> path_less(#[trigger] s[i], #[trigger] s[j])
}

/// A path with the components of `p` is in the list.
pub open spec fn holds_path(s: Seq<Seq<char>>, p: Seq<char>) -> bool {
    exists|i: int| 0 <= i < s.len() && parts(#[trigger] s[i]) == parts(p)
}

proof fn lemma_holds_path_cons(x: Seq<char>, s: Seq<Seq<char>>, q: Seq<char>)
    ensures
        holds_path(seq![x] + s, q) == (parts(x) == parts(q) || holds_path(s, q)),
{
    let t = seq![x] + s;
    if parts(x) == parts(q) {
        assert(parts(t[0]) == parts(q));
    }
    if holds_path(s, q) {
        let i = choose|i: int| 0 <= i < s.len() && parts(#[trigger] s[i]) == parts(q);
        assert(parts(t[i + 1]) == parts(q));
    }
    if holds_path(t, q) {
        let i = choose|i: int| 0 <= i < t.len() && parts(#[trigger] t[i]) == parts(q);
        if i > 0 {
            assert(parts(s[i - 1]) == parts(q));
        }
    }
}

/// Inserting keeps a list increasing, hence free of repetitions, and adds the
/// path and nothing else.
pub proof fn inserting_keeps_order(s: Seq<Seq<char>>, p: Seq<char>)
    requires
        increasing(s),
    ensures
        increasing(inserted(s, p)),
        forall|q: Seq<char>| #[trigger]
            holds_path(inserted(s, p), q) == (parts(q) == parts(p) || holds_path(s, q)),
        forall|i: int|
            0 <= i < inserted(s, p).len() ==> inserted(s, p)[i] == p || s.contains(
                #[trigger] inserted(s, p)[i],
            ),
    decreases s.len(),
{
    let r = inserted(s, p);
    if s.len() == 0 {
        assert forall|q: Seq<char>| #[trigger] holds_path(r, q) == (parts(q) == parts(p)
            || holds_path(s, q)) by {
            assert(seq![p] + s =~= r);
            lemma_holds_path_cons(p, s, q);
        }
    } else if parts(p) == parts(s[0]) {
        assert forall|q: Seq<char>| #[trigger] holds_path(r, q) == (parts(q) == parts(p)
            || holds_path(s, q)) by {
            if parts(q) == parts(p) {
                assert(parts(s[0]) == parts(q));
            }
        }
    } else if path_less(p, s[0]) {
        assert forall|i: int, j: int| 0 <= i < j < r.len() implies path_less(
            #[trigger] r[i],
            #[trigger] r[j],
        ) by {
            if i == 0 {
                if j > 1 {
                    assert(path_less(s[0], s[j - 1]));
                    path_order_is_transitive(p, s[0], s[j - 1]);
                }
            } else {
                assert(path_less(s[i - 1], s[j - 1]));
            }
        }
        assert forall|q: Seq<char>| #[trigger] holds_path(r, q) == (parts(q) == parts(p)
            || holds_path(s, q)) by {
            lemma_holds_path_cons(p, s, q);
        }
        assert forall|i: int| 0 <= i < r.len() implies r[i] == p || s.contains(#[trigger] r[i]) by {
            if i > 0 {
                assert(r[i] == s[i - 1]);
            }
        }
    } else {
        let t = s.skip(1);
        assert(increasing(t));
        inserting_keeps_order(t, p);
        path_order_is_total(p, s[0]);
        let u = inserted(t, p);
        assert forall|i: int, j: int| 0 <= i < j < r.len() implies path_less(
            #[trigger] r[i],
            #[trigger] r[j],
        ) by {
            if i == 0 {
                assert(r[j] == u[j - 1]);
                if u[j - 1] != p {
                    assert(t.contains(u[j - 1]));
                    let k = choose|k: int| 0 <= k < t.len() && t[k] == u[j - 1];
                    assert(path_less(s[0], s[k + 1]));
                }
            } else {
                assert(path_less(u[i - 1], u[j - 1]));
            }
        }
        assert forall|q: Seq<char>| #[trigger] holds_path(r, q) == (parts(q) == parts(p)
            || holds_path(s, q)) by {
            lemma_holds_path_cons(s[0], u, q);
            lemma_holds_path_cons(s[0], t, q);
            assert(seq![s[0]] + t =~= s);
            assert(holds_path(u, q) == (parts(q) == parts(p) || holds_path(t, q)));
        }
        assert forall|i: int| 0 <= i < r.len() implies r[i] == p || s.contains(#[trigger] r[i]) by {
            if i > 0 {
                assert(r[i] == u[i - 1]);
                if u[i - 1] != p {
                    assert(t.contains(u[i - 1]));
                    let k = choose|k: int| 0 <= k < t.len() && t[k] == u[i - 1];
                    assert(s[k + 1] == r[i]);
                }
            } else {
                assert(r[0] == s[0]);
            }
        }
    }
}

/// `p` put behind all paths that do not come after it.
pub open spec fn placed(s: Seq<Seq<char>>, p: Seq<char>) -> Seq<Seq<char>>
    decreases s.len(),
{
    if s.len() == 0 {
        seq![p]
    } else if path_less(p, s.last()) {
        placed(s.drop_last(), p).push(s.last())
    } else {
        s.push(p)
    }
}

/// The paths in path order, repetitions kept.
pub open spec fn sorted(s: Seq<Seq<char>>) -> Seq<Seq<char>>
    decreases s.len(),
{
    if s.len() == 0 {
        Seq::empty()
    } else {
        placed(sorted(s.drop_last()), s.last())
    }
}

fn place(v: &mut Vec<String>, p: String)
    ensures
        chars::views(final(v)@) == placed(chars::views(old(v)@), p@),
{
    let ghost s = chars::views(v@);
    let ghost x = p@;
    let mut i: usize = v.len();
    assert(s.take(i as int) =~= s);
    assert(placed(s, x) =~= placed(s.take(i as int), x) + s.skip(i as int));
    while i > 0 && less(&p, &v[i - 1])
        invariant
            i <= v.len(),
            s == chars::views(v@),
            v@ == old(v)@,
            x == p@,
            placed(s, x) == placed(s.take(i as int), x) + s.skip(i as int),
        decreases i,
    {
        proof {
            let t = s.take(i as int);
            assert(t.last() == v@[i - 1]@);
            assert(t.drop_last() =~= s.take(i - 1));
            assert(placed(t, x) + s.skip(i as int) =~= placed(s.take(i - 1), x) + s.skip(i - 1));
        }
        i -= 1;
    }
    proof {
        let t = s.take(i as int);
        if i > 0 {
            assert(t.last() == v@[i - 1]@);
        }
        assert(placed(t, x) =~= t.push(x));
    }
    v.insert(i, p);
    assert(chars::views(v@) =~= s.take(i as int).push(x) + s.skip(i as int));
}

/// The paths in path order, repetitions kept.
pub fn sort(v: Vec<String>) -> (r: Vec<String>)
    ensures
        chars::views(r@) == sorted(chars::views(v@)),
{
    let ghost all = chars::views(v@);
    let mut r: Vec<String> = Vec::new();
    let mut i: usize = 0;
    assert(chars::views(r@) =~= sorted(all.take(0)));
    while i < v.len()
        invariant
            i <= v.len(),
            all == chars::views(v@),
            chars::views(r@) == sorted(all.take(i as int)),
        decreases v.len() - i,
    {
        assert(all.take(i + 1).drop_last() =~= all.take(i as int));
        assert(all[i as int] == v@[i as int]@);
        place(&mut r, v[i].clone());
        i += 1;
    }
    assert(all.take(i as int) =~= all);
    r
}

proof fn lemma_sorted_len(s: Seq<Seq<char>>)
    ensures
        sorted(s).len() == s.len(),
    decreases s.len(),
{
    if s.len() > 0 {
        lemma_sorted_len(s.drop_last());
        lemma_placed(sorted(s.drop_last()), s.last());
    }
}

proof fn lemma_placed(s: Seq<Seq<char>>, p: Seq<char>)
    ensures
        placed(s, p).len() == s.len() + 1,
        forall|q: Seq<char>| #[trigger] placed(s, p).contains(q) == (q == p || s.contains(q)),
    decreases s.len(),
{
    let r = placed(s, p);
    if s.len() == 0 {
        assert(r[0] == p);
    } else if path_less(p, s.last()) {
        let t = s.drop_last();
        lemma_placed(t, p);
        let u = placed(t, p);
        assert forall|q: Seq<char>| #[trigger] r.contains(q) == (q == p || s.contains(q)) by {
            if u.contains(q) {
                let k = choose|k: int| 0 <= k < u.len() && u[k] == q;
                assert(r[k] == q);
                if q != p {
                    let j = choose|j: int| 0 <= j < t.len() && t[j] == q;
                    assert(s[j] == q);
                }
            }
            if r.contains(q) {
                let k = choose|k: int| 0 <= k < r.len() && r[k] == q;
                if k < u.len() {
                    assert(u[k] == q);
                } else {
                    assert(s[s.len() - 1] == q);
                }
            }
            if s.contains(q) {
                let k = choose|k: int| 0 <= k < s.len() && s[k] == q;
                if k < t.len() {
                    assert(t[k] == q);
                    assert(u.contains(q));
                } else {
                    assert(r[r.len() - 1] == q);
                }
            }
        }
    } else {
        assert forall|q: Seq<char>| #[trigger] r.contains(q) == (q == p || s.contains(q)) by {
            assert(r[s.len() as int] == p);
            if s.contains(q) {
                let k = choose|k: int| 0 <= k < s.len() && s[k] == q;
                assert(r[k] == q);
            }
        }
    }
}

/// Sorting neither adds nor drops paths.
pub proof fn sorting_keeps_the_paths(s: Seq<Seq<char>>)
    ensures
        sorted(s).len() == s.len(),
        forall|q: Seq<char>| #[trigger] sorted(s).contains(q) == s.contains(q),
    decreases s.len(),
{
    lemma_sorted_len(s);
    if s.len() > 0 {
        let t = s.drop_last();
        sorting_keeps_the_paths(t);
        lemma_placed(sorted(t), s.last());
        assert forall|q: Seq<char>| #[trigger] sorted(s).contains(q) == s.contains(q) by {
            if s.contains(q) {
                let k = choose|k: int| 0 <= k < s.len() && s[k] == q;
                if k < t.len() {
                    assert(t[k] == q);
                }
            }
            if t.contains(q) {
                let k = choose|k: int| 0 <= k < t.len() && t[k] == q;
                assert(s[k] == q);
            }
            assert(s[s.len() - 1] == s.last());
            assert(sorted(t).contains(q) == t.contains(q));
        }
    }
}

/// Whether a list holds a path, however written.
pub fn holds(list: &Vec<String>, path: &str) -> (r: bool)
    ensures
        r == holds_path(chars::views(list@), path@),
{
    let ghost all = chars::views(list@);
    let mut i: usize = 0;
    while i < list.len()
        invariant
            i <= list.len(),
            all == chars::views(list@),
            forall|j: int| 0 <= j < i ==> parts(#[trigger] all[j]) != parts(path@),
        decreases list.len() - i,
    {
        assert(all[i as int] == list@[i as int]@);
        if same_path(&list[i], path) {
            return true;
        }
        i += 1;
    }
    false
}

/// A list of paths without repetitions, in increasing order.
#[derive(Debug)]
pub struct PathSet {
    paths: Vec<String>,
}

impl PathSet {
    /// The paths, first to last.
    pub closed spec fn view(&self) -> Seq<Seq<char>> {
        chars::views(self.paths@)
    }

    #[verifier::type_invariant]
    spec fn is_increasing(self) -> bool {
        increasing(chars::views(self.paths@))
    }

    /// A set without paths.
    pub fn new() -> (r: Self)
        ensures
            r@ == Seq::<Seq<char>>::empty(),
    {
        let r = PathSet { paths: Vec::new() };
        assert(r@ =~= Seq::<Seq<char>>::empty());
        r
    }

    /// Adds a path; one that is already there, however written, stays as it is.
    pub fn insert(&mut self, p: &str)
        ensures
            final(self)@ == inserted(old(self)@, p@),
            increasing(final(self)@),
    {
        proof {
            use_type_invariant(&*self);
            inserting_keeps_order(self@, p@);
        }
        let mut paths: Vec<String> = Vec::new();
        assert(increasing(chars::views(paths@)));
        std::mem::swap(&mut paths, &mut self.paths);
        insert_into(&mut paths, p);
        self.paths = paths;
    }

    /// Adds each path of a list.
    pub fn extend(&mut self, more: &Vec<String>)
        ensures
            final(self)@ == inserted_all(old(self)@, chars::views(more@)),
            increasing(final(self)@),
    {
        proof {
            use_type_invariant(&*self);
        }
        let ghost all = chars::views(more@);
        let mut i: usize = 0;
        assert(all.take(0) =~= Seq::empty());
        while i < more.len()
            invariant
                i <= more.len(),
                all == chars::views(more@),
                self@ == inserted_all(old(self)@, all.take(i as int)),
                increasing(self@),
            decreases more.len() - i,
        {
            assert(all.take(i + 1).drop_last() =~= all.take(i as int));
            assert(all[i as int] == more@[i as int]@);
            self.insert(&more[i]);
            i += 1;
        }
        assert(all.take(i as int) =~= all);
    }

    /// How many paths there are.
    pub fn len(&self) -> (n: usize)
        ensures
            n == self@.len(),
    {
        self.paths.len()
    }

    /// Whether the path is among them, however written.
    pub fn contains(&self, p: &str) -> (r: bool)
        ensures
            r == holds_path(self@, p@),
    {
        holds(&self.paths, p)
    }

    /// The paths as a list.
    pub fn as_list(&self) -> (r: &Vec<String>)
        ensures
            chars::views(r@) == self@,
            increasing(self@),
    {
        proof {
            use_type_invariant(self);
        }
        &self.paths
    }

    /// The paths as a list.
    pub fn into_vec(self) -> (r: Vec<String>)
        ensures
            chars::views(r@) == self@,
            increasing(self@),
    {
        proof {
            use_type_invariant(&self);
        }
        self.paths
    }
}

/// Puts a path at its place in an increasing list, unless it is already there.
fn insert_into(paths: &mut Vec<String>, p: &str)
    ensures
        chars::views(final(paths)@) == inserted(chars::views(old(paths)@), p@),
{
    let ghost s = chars::views(paths@);
    let mut i: usize = 0;
    assert(s.take(0) + inserted(s.skip(0), p@) =~= inserted(s, p@)) by {
        assert(s.skip(0) =~= s);
    }
    while i < paths.len()
        invariant
            i <= paths.len(),
            chars::views(paths@) == s,
            s == chars::views(old(paths)@),
            s.take(i as int) + inserted(s.skip(i as int), p@) == inserted(s, p@),
        decreases paths.len() - i,
    {
        let ghost t = s.skip(i as int);
        assert(t[0] == paths@[i as int]@);
        assert(t.skip(1) =~= s.skip(i + 1));
        if same_path(p, &paths[i]) {
            assert(s.take(i as int) + t =~= s);
            return;
        }
        if less(p, &paths[i]) {
            paths.insert(i, p.to_owned());
            assert(chars::views(paths@) =~= s.take(i as int) + (seq![p@] + t));
            return;
        }
        assert(s.take(i as int) + (seq![t[0]] + inserted(s.skip(i + 1), p@)) =~= s.take(i + 1)
            + inserted(s.skip(i + 1), p@));
        i += 1;
    }
    assert(s.skip(i as int) =~= Seq::empty());
    paths.push(p.to_owned());
    assert(chars::views(paths@) =~= s.take(i as int) + seq![p@]);
}

/// The files, below the root.
pub open spec fn below(root: Seq<char>, files: Seq<Seq<char>>) -> Seq<Seq<char>> {
    files.map_values(|f: Seq<char>| joined(root, f))
}

/// The files, below the root.
pub fn join_all(root: &str, files: &Vec<String>) -> (r: Vec<String>)
    ensures
        chars::views(r@) == below(root@, chars::views(files@)),
{
    let ghost all = chars::views(files@);
    let mut r: Vec<String> = Vec::new();
    let mut i: usize = 0;
    assert(chars::views(r@) =~= below(root@, all.take(0)));
    while i < files.len()
        invariant
            i <= files.len(),
            all == chars::views(files@),
            chars::views(r@) == below(root@, all.take(i as int)),
        decreases files.len() - i,
    {
        let ghost before = chars::views(r@);
        let path = join(root, &files[i]);
        let ghost p = path@;
        r.push(path);
        assert(all[i as int] == files@[i as int]@);
        assert(chars::views(r@) =~= before.push(p));
        assert(chars::views(r@) =~= below(root@, all.take(i + 1)));
        i += 1;
    }
    assert(all.take(i as int) =~= all);
    r
}

/// A component as it can stand behind another one: a name, or `..`.
pub open spec fn is_step(p: Seq<char>) -> bool {
    p.len() > 0 && !p.contains('/') && p != seq!['.']
}

proof fn lemma_counting_append(a: Seq<Seq<char>>, b: Seq<Seq<char>>)
    ensures
        counting(a + b) == counting(a) + counting(b),
    decreases b.len(),
{
    if b.len() == 0 {
        assert(a + b =~= a);
        assert(counting(b) =~= Seq::empty()) by {
            reveal(Seq::filter);
        }
        assert(counting(a) + counting(b) =~= counting(a));
    } else {
        let t = b.drop_last();
        lemma_counting_append(a, t);
        assert(a + b =~= (a + t).push(b.last()));
        assert(b =~= t.push(b.last()));
        lemma_counting_push(a + t, b.last());
        lemma_counting_push(t, b.last());
        assert(counting(a + b) =~= counting(a) + counting(b));
    }
}

proof fn lemma_counting_all(ps: Seq<Seq<char>>)
    requires
        forall|i: int| 0 <= i < ps.len() ==> counts(#[trigger] ps[i]),
    ensures
        counting(ps) == ps,
    decreases ps.len(),
{
    if ps.len() > 0 {
        let t = ps.drop_last();
        lemma_counting_all(t);
        assert(ps =~= t.push(ps.last()));
        lemma_counting_push(t, ps.last());
    } else {
        assert(counting(ps) =~= ps) by {
            reveal(Seq::filter);
        }
    }
}

/// Pieces that hold no separator are what a split gives of them joined.
proof fn lemma_split_join(ps: Seq<Seq<char>>)
    requires
        ps.len() > 0,
        forall|i: int| 0 <= i < ps.len() ==> !(#[trigger] ps[i]).contains('/'),
    ensures
        chars::split(chars::join(ps, seq!['/']), '/') == ps,
    decreases ps.len(),
{
    chars::lemma_split_single(ps.last(), '/');
    if ps.len() == 1 {
        assert(ps =~= seq![ps.last()]);
    } else {
        let t = ps.drop_last();
        lemma_split_join(t);
        let a = chars::join(t, seq!['/']);
        chars::lemma_split_append(a, '/', ps.last());
        assert(a + seq!['/'] + ps.last() =~= a.push('/') + ps.last());
        assert(t + seq![ps.last()] =~= ps);
    }
}

/// What [`written`] writes has the components that it was given: steps, and
/// before them the root, `.` or nothing.
pub proof fn written_components_are_read_back(steps: Seq<Seq<char>>)
    requires
        forall|i: int| 0 <= i < steps.len() ==> is_step(#[trigger] steps[i]),
    ensures
        parts(written(steps)) == steps,
        parts(written(seq![seq!['/']] + steps)) == seq![seq!['/']] + steps,
        parts(written(seq![seq!['.']] + steps)) == seq![seq!['.']] + steps,
{
    lemma_counting_all(steps);
    let e = Seq::<char>::empty();
    if steps.len() > 0 {
        let first = steps[0];
        if first == root_part() {
            assert(first[0] == '/');
            assert(first.contains('/'));
        }
        let s = chars::join(steps, seq!['/']);
        lemma_split_join(steps);
        lemma_join_front(steps);
        assert(s[0] == first[0]);
        if rooted(s) {
            assert(first.contains('/'));
        }
        assert(parts(written(steps)) =~= steps);
        // below the root
        let r = seq![root_part()] + steps;
        assert(r.skip(1) =~= steps);
        assert(written(r) =~= e.push('/') + s);
        chars::lemma_split_append(e, '/', s);
        assert(chars::split(e, '/') =~= seq![e]);
        lemma_counting_append(seq![e], steps);
        assert(counting(seq![e]) =~= Seq::empty()) by {
            reveal_with_fuel(Seq::filter, 2);
            assert(seq![e].drop_last() =~= Seq::empty());
        }
        assert(parts(written(r)) =~= r);
    } else {
        assert(steps =~= Seq::empty());
        assert(written(steps) =~= e);
        assert(chars::split(e, '/') =~= seq![e]);
        assert(counting(seq![e]) =~= Seq::empty()) by {
            reveal_with_fuel(Seq::filter, 2);
            assert(seq![e].drop_last() =~= Seq::empty());
        }
        let r = seq![root_part()] + steps;
        assert(r.skip(1) =~= steps);
        assert(written(r) =~= e.push('/') + e);
        chars::lemma_split_append(e, '/', e);
        lemma_counting_append(seq![e], seq![e]);
        assert(parts(written(r)) =~= r);
    }
    let h = seq![here_part()] + steps;
    assert(!here_part().contains('/'));
    assert forall|i: int| 0 <= i < h.len() implies !(#[trigger] h[i]).contains('/') by {
        if i > 0 {
            assert(h[i] == steps[i - 1]);
        }
    }
    lemma_split_join(h);
    lemma_join_front(h);
    let s = chars::join(h, seq!['/']);
    assert(s[0] == '.');
    assert(h[0][0] == '.' && root_part()[0] == '/');
    assert(written(h) == s);
    lemma_counting_append(seq![here_part()], steps);
    assert(counting(seq![here_part()]) =~= Seq::empty()) by {
        reveal_with_fuel(Seq::filter, 2);
        assert(seq![here_part()].drop_last() =~= Seq::empty());
    }
    assert(parts(s) =~= h);
}

proof fn lemma_join_front(ps: Seq<Seq<char>>)
    requires
        ps.len() > 0,
        ps[0].len() > 0,
    ensures
        chars::join(ps, seq!['/']).len() > 0,
        chars::join(ps, seq!['/'])[0] == ps[0][0],
    decreases ps.len(),
{
    if ps.len() > 1 {
        lemma_join_front(ps.drop_last());
    }
}

/// The components of a path are steps, but for the first, which may be the root
/// or `.`.
proof fn lemma_parts_are_steps(s: Seq<char>)
    ensures
        forall|i: int| 0 < i < parts(s).len() ==> is_step(#[trigger] parts(s)[i]),
        parts(s).len() > 0 ==> is_step(parts(s)[0]) || parts(s)[0] == seq!['/'] || parts(s)[0]
            == seq!['.'],
{
    let pieces = chars::split(s, '/');
    chars::lemma_split_pieces(s, '/');
    let c = counting(pieces);
    assert forall|i: int| 0 <= i < c.len() implies is_step(#[trigger] c[i]) by {
        let f = |p: Seq<char>| counts(p);
        pieces.lemma_filter_pred(f, i);
        assert(pieces.filter(f).contains(c[i]));
        pieces.lemma_filter_contains_rev(f, c[i]);
        let k = choose|k: int| 0 <= k < pieces.len() && pieces[k] == c[i];
        assert(!pieces[k].contains('/'));
    }
    let ps = parts(s);
    if rooted(s) {
        assert forall|i: int| 0 < i < ps.len() implies is_step(#[trigger] ps[i]) by {
            assert(ps[i] == c[i - 1]);
        }
    } else if pieces[0] == here_part() {
        assert forall|i: int| 0 < i < ps.len() implies is_step(#[trigger] ps[i]) by {
            assert(ps[i] == c[i - 1]);
        }
    }
}

/// A relative path leads from the base to the path: its components stand behind
/// those of the base. There is one just where the components of the base are
/// the first ones of the path.
pub proof fn relative_paths_lead_there(s: Seq<char>, base: Seq<char>)
    ensures
        relative(s, base) is Some <==> parts(base).len() <= parts(s).len() && parts(s).take(
            parts(base).len() as int,
        ) == parts(base),
        relative(s, base) matches Some(rel) ==> parts(s) == parts(base) + parts(rel),
{
    let n = parts(base).len() as int;
    let ps = parts(s);
    if n <= ps.len() && ps.take(n) == parts(base) {
        assert forall|i: int| 0 <= i < n implies parts(base)[i] == ps[i] by {
            assert(parts(base)[i] == ps.take(n)[i]);
        }
        assert(within(s, base));
    }
    if within(s, base) {
        assert(ps.take(n) =~= parts(base));
        lemma_parts_are_steps(s);
        let rest = ps.skip(n);
        assert(ps =~= parts(base) + rest);
        if n > 0 {
            assert forall|i: int| 0 <= i < rest.len() implies is_step(#[trigger] rest[i]) by {
                assert(rest[i] == ps[n + i]);
            }
            written_components_are_read_back(rest);
        } else {
            assert(rest =~= ps);
            lemma_parts_read_back(s);
        }
    }
}

proof fn lemma_parts_read_back(s: Seq<char>)
    ensures
        parts(written(parts(s))) == parts(s),
{
    let ps = parts(s);
    lemma_parts_are_steps(s);
    if ps.len() == 0 || is_step(ps[0]) {
        written_components_are_read_back(ps);
    } else {
        let t = ps.skip(1);
        assert forall|i: int| 0 <= i < t.len() implies is_step(#[trigger] t[i]) by {
            assert(t[i] == ps[i + 1]);
        }
        written_components_are_read_back(t);
        assert(ps =~= seq![ps[0]] + t);
    }
}

/// A path taken from a directory has the components of the directory and then
/// its own; a leading `.` does not count among the latter. A path that starts
/// at the root is taken as it is, and from nowhere every path is.
pub proof fn joined_components_follow(a: Seq<char>, b: Seq<char>)
    ensures
        rooted(b) ==> joined(a, b) == b,
        joined(Seq::empty(), b) == b,
        a.len() > 0 && !rooted(b) ==> parts(joined(a, b)) == parts(a) + (if parts(b).len() > 0
            && parts(b)[0] == seq!['.'] {
            parts(b).skip(1)
        } else {
            parts(b)
        }),
{
    let e = Seq::<char>::empty();
    assert(e + b =~= b);
    if a.len() > 0 && !rooted(b) {
        let s = joined(a, b);
        let dir = if a.last() == '/' {
            a.drop_last()
        } else {
            a
        };
        assert(s =~= dir.push('/') + b);
        chars::lemma_split_append(dir, '/', b);
        chars::lemma_split_nonempty(dir, '/');
        chars::lemma_split_nonempty(b, '/');
        let pd = chars::split(dir, '/');
        let pb = chars::split(b, '/');
        lemma_counting_append(pd, pb);
        if a.last() == '/' {
            chars::lemma_split_append(dir, '/', e);
            assert(dir.push('/') + e =~= a);
            assert(chars::split(e, '/') =~= seq![e]);
            lemma_counting_append(pd, seq![e]);
            assert(counting(seq![e]) =~= Seq::empty()) by {
                reveal_with_fuel(Seq::filter, 2);
                assert(seq![e].drop_last() =~= Seq::empty());
            }
            assert(counting(chars::split(a, '/')) =~= counting(pd));
        }
        assert(chars::split(a, '/')[0] == pd[0]);
        assert(chars::split(s, '/')[0] == pd[0]);
        assert(rooted(s) == rooted(a)) by {
            assert(s[0] == a[0]);
        }
        assert(parts(s) =~= parts(a) + counting(pb));
        let pbs = parts(b);
        if pb[0] == here_part() {
            assert(pbs[0] == here_part());
            assert(pbs.skip(1) =~= counting(pb));
        } else if pbs.len() > 0 {
            let f = |p: Seq<char>| counts(p);
            pb.lemma_filter_pred(f, 0);
        }
    }
}

/// What is taken from a directory lies in it, and the way from the directory to
/// it is the path that was taken.
pub proof fn joined_paths_lie_within(dir: Seq<char>, p: Seq<char>)
    requires
        dir.len() > 0,
        !rooted(p),
        parts(p).len() > 0 ==> parts(p)[0] != seq!['.'],
    ensures
        within(joined(dir, p), dir),
        relative(joined(dir, p), dir) matches Some(rel) && parts(rel) == parts(p),
{
    joined_components_follow(dir, p);
    relative_paths_lead_there(joined(dir, p), dir);
    let s = joined(dir, p);
    let n = parts(dir).len() as int;
    assert(parts(s).take(n) =~= parts(dir));
    let rel = relative(s, dir)->0;
    assert(parts(s).skip(n) =~= parts(p));
    assert(parts(s).skip(n) =~= parts(rel));
}

/// Repeated separators and `.` behind another component say nothing.
pub proof fn empty_steps_do_not_count(a: Seq<char>, b: Seq<char>)
    requires
        a.len() > 0,
    ensures
        parts(a + seq!['/', '/'] + b) == parts(a + seq!['/'] + b),
        parts(a + seq!['/', '.', '/'] + b) == parts(a + seq!['/'] + b),
{
    let e = Seq::<char>::empty();
    let pa = chars::split(a, '/');
    let pb = chars::split(b, '/');
    let x = a + seq!['/'] + b;
    let y = a + seq!['/', '/'] + b;
    let z = a + seq!['/', '.', '/'] + b;
    chars::lemma_split_nonempty(a, '/');
    assert(x =~= a.push('/') + b);
    chars::lemma_split_append(a, '/', b);
    assert(y =~= a.push('/') + (e.push('/') + b));
    chars::lemma_split_append(a, '/', e.push('/') + b);
    chars::lemma_split_append(e, '/', b);
    assert(chars::split(e, '/') =~= seq![e]);
    assert(z =~= a.push('/') + (seq!['.'].push('/') + b));
    chars::lemma_split_append(a, '/', seq!['.'].push('/') + b);
    chars::lemma_split_append(seq!['.'], '/', b);
    assert(!seq!['.'].contains('/'));
    chars::lemma_split_single(seq!['.'], '/');
    lemma_counting_append(pa, pb);
    lemma_counting_append(pa, seq![e] + pb);
    lemma_counting_append(seq![e], pb);
    lemma_counting_append(pa, seq![seq!['.']] + pb);
    lemma_counting_append(seq![seq!['.']], pb);
    assert(counting(seq![e]) =~= Seq::empty()) by {
        reveal_with_fuel(Seq::filter, 2);
        assert(seq![e].drop_last() =~= Seq::empty());
    }
    assert(counting(seq![seq!['.']]) =~= Seq::empty()) by {
        reveal_with_fuel(Seq::filter, 2);
        assert(seq![seq!['.']].drop_last() =~= Seq::empty());
    }
    assert(x[0] == a[0] && y[0] == a[0] && z[0] == a[0]);
    assert(parts(y) =~= parts(x));
    assert(parts(z) =~= parts(x));
}

/// Resolving leaves out each `.`, and each `..` with the component before it;
/// what holds neither stays as it is, and a `..` with nothing but the root
/// before it cannot be resolved.
pub proof fn resolving_goes_back(
    a: Seq<Seq<char>>,
    name: Seq<char>,
    b: Seq<Seq<char>>,
)
    requires
        name != seq!['/'] && name != seq!['.'] && name != seq!['.', '.'],
    ensures
        resolved(a + seq![seq!['.']] + b) == resolved(a + b),
        resolved(a + seq![name, seq!['.', '.']] + b) == resolved(a + b),
        resolved(seq![seq!['.', '.']] + b) is None,
        resolved(seq![seq!['/'], seq!['.', '.']] + b) is None,
        (forall|i: int|
            0 <= i < a.len() ==> #[trigger] a[i] != seq!['.'] && a[i] != seq!['.', '.'])
            ==> resolved(a) == Some(a),
{
    assert(here_part() != parent_part()) by {
        assert(here_part().len() == 1 && parent_part().len() == 2);
    }
    let x = a + seq![here_part()];
    assert(x.drop_last() =~= a);
    lemma_resolved_append(x, a, b);
    let y = a + seq![name, parent_part()];
    let y1 = a + seq![name];
    assert(y.drop_last() =~= y1);
    assert(y1.drop_last() =~= a);
    assert(y.last() == parent_part() && y1.last() == name);
    assert(resolved(y) == resolved(a)) by {
        assert(resolved(y1) == match resolved(a) {
            Some(stack) => Some(stack.push(name)),
            None => None,
        });
        match resolved(a) {
            Some(stack) => {
                assert(stack.push(name).drop_last() =~= stack);
            },
            None => {},
        }
    }
    lemma_resolved_append(y, a, b);
    let u = seq![parent_part()];
    assert(u.drop_last() =~= Seq::empty());
    assert(u.last() == parent_part());
    assert(resolved(u.drop_last()) == Some(Seq::<Seq<char>>::empty()));
    assert(resolved(u) is None);
    assert((u + b).take(1) =~= u);
    lemma_resolved_none(u + b, 1);
    let v = seq![root_part(), parent_part()];
    assert(v.drop_last() =~= seq![root_part()]);
    assert(v.drop_last().drop_last() =~= Seq::empty());
    assert(resolved(v.drop_last().drop_last()) == Some(Seq::<Seq<char>>::empty()));
    assert(v.drop_last().last() == root_part() && v.last() == parent_part());
    assert(root_part()[0] == '/' && here_part()[0] == '.' && parent_part()[0] == '.');
    assert(resolved(seq![root_part()]) == Some(Seq::<Seq<char>>::empty().push(root_part())));
    assert(resolved(v) is None);
    assert((v + b).take(2) =~= v);
    lemma_resolved_none(v + b, 2);
    if forall|i: int|
        0 <= i < a.len() ==> #[trigger] a[i] != here_part() && a[i] != parent_part() {
        lemma_resolved_plain(a);
    }
}

proof fn lemma_resolved_append(x: Seq<Seq<char>>, y: Seq<Seq<char>>, b: Seq<Seq<char>>)
    requires
        resolved(x) == resolved(y),
    ensures
        resolved(x + b) == resolved(y + b),
    decreases b.len(),
{
    if b.len() == 0 {
        assert(x + b =~= x);
        assert(y + b =~= y);
    } else {
        lemma_resolved_append(x, y, b.drop_last());
        assert((x + b).drop_last() =~= x + b.drop_last());
        assert((y + b).drop_last() =~= y + b.drop_last());
    }
}

proof fn lemma_resolved_plain(a: Seq<Seq<char>>)
    requires
        forall|i: int|
            0 <= i < a.len() ==> #[trigger] a[i] != here_part() && a[i] != parent_part(),
    ensures
        resolved(a) == Some(a),
    decreases a.len(),
{
    if a.len() > 0 {
        lemma_resolved_plain(a.drop_last());
        assert(a[a.len() - 1] != here_part());
        assert(a.drop_last().push(a.last()) =~= a);
    } else {
        assert(a =~= Seq::empty());
    }
}

/// The extension of a file is what follows the last dot of its name; a name
/// whose only dot is its first character, or that holds none, has none.
pub proof fn extensions_follow_the_last_dot(s: Seq<char>, stem: Seq<char>, ext: Seq<char>)
    ensures
        base_name(s) == Some(stem.push('.') + ext) && !ext.contains('.') ==> suffix(s)
            == if stem.len() > 0 {
            Some(ext)
        } else {
            None
        },
        base_name(s) == Some(ext) && !ext.contains('.') ==> suffix(s) is None,
        base_name(s) is None ==> suffix(s) is None,
{
    if !ext.contains('.') {
        lemma_rfind_char(stem, '.', ext);
        lemma_rfind_char_absent(ext, '.');
        assert((stem.push('.') + ext).skip(stem.len() as int + 1) =~= ext);
    }
}

proof fn lemma_rfind_char(a: Seq<char>, c: char, b: Seq<char>)
    requires
        !b.contains(c),
    ensures
        chars::rfind_char(a.push(c) + b, c) == Some(a.len() as int),
    decreases b.len(),
{
    let s = a.push(c) + b;
    if b.len() > 0 {
        assert(s.last() == b.last());
        assert(b.contains(b[b.len() - 1]));
        assert(s.drop_last() =~= a.push(c) + b.drop_last());
        assert(!b.drop_last().contains(c)) by {
            if b.drop_last().contains(c) {
                let k = choose|k: int| 0 <= k < b.drop_last().len() && b.drop_last()[k] == c;
                assert(b[k] == c);
            }
        }
        lemma_rfind_char(a, c, b.drop_last());
    } else {
        assert(s =~= a.push(c));
    }
}

proof fn lemma_rfind_char_absent(b: Seq<char>, c: char)
    requires
        !b.contains(c),
    ensures
        chars::rfind_char(b, c) is None,
    decreases b.len(),
{
    if b.len() > 0 {
        assert(b.contains(b[b.len() - 1]));
        assert(!b.drop_last().contains(c)) by {
            if b.drop_last().contains(c) {
                let k = choose|k: int| 0 <= k < b.drop_last().len() && b.drop_last()[k] == c;
                assert(b[k] == c);
            }
        }
        lemma_rfind_char_absent(b.drop_last(), c);
    }
}

/// The last component is the name of a path, unless it is the root, `.` or `..`.
pub proof fn names_are_last_components(s: Seq<char>)
    ensures
        base_name(s) == if parts(s).len() > 0 && parts(s).last() != seq!['/'] && parts(s).last()
            != seq!['.'] && parts(s).last() != seq!['.', '.'] {
            Some(parts(s).last())
        } else {
            None
        },
{
}

/// Paths are ordered by the first component in which they differ, names by the
/// first character in which they differ; what lies in a directory comes behind
/// it.
pub proof fn paths_are_ordered_by_component(
    a: Seq<char>,
    b: Seq<char>,
    common: Seq<Seq<char>>,
    x: Seq<char>,
    y: Seq<char>,
    n: int,
)
    requires
        0 <= n <= x.len() && n <= y.len(),
        x.take(n) == y.take(n),
    ensures
        parts(a).len() < parts(b).len() && within(b, a) ==> path_less(a, b),
        common.push(x).is_prefix_of(parts(a)) && common.push(y).is_prefix_of(parts(b))
            && names_entry(x) && names_entry(y) && n < y.len() && (n == x.len() || (n < x.len()
            && x[n] < y[n])) ==> path_less(a, b),
{
    if parts(a).len() < parts(b).len() && within(b, a) {
        lemma_prefix_less(parts(a), parts(b));
    }
    if common.push(x).is_prefix_of(parts(a)) && common.push(y).is_prefix_of(parts(b))
        && names_entry(x) && names_entry(y) && n < y.len() && (n == x.len() || (n < x.len() && x[n]
        < y[n])) {
        lemma_text_less(x, y, n);
        lemma_less_total(x, y);
        assert(x != y);
        lemma_common_less(parts(a), parts(b), common, x, y);
    }
}

proof fn lemma_prefix_less(a: Seq<Seq<char>>, b: Seq<Seq<char>>)
    requires
        a.len() < b.len(),
        a.is_prefix_of(b),
    ensures
        parts_less(a, b),
    decreases a.len(),
{
    if a.len() > 0 {
        assert(a[0] == b[0]);
        assert forall|i: int| 0 <= i < a.skip(1).len() implies a.skip(1)[i] == b.skip(1)[i] by {
            assert(a[i + 1] == b[i + 1]);
        }
        assert(a.skip(1) =~= b.skip(1).take(a.len() - 1));
        lemma_prefix_less(a.skip(1), b.skip(1));
    }
}

proof fn lemma_text_less(x: Seq<char>, y: Seq<char>, n: int)
    requires
        0 <= n <= x.len(),
        n < y.len(),
        x.take(n) == y.take(n),
        n == x.len() || x[n] < y[n],
    ensures
        chars::less(x, y),
    decreases n,
{
    if n > 0 {
        assert(x[0] == x.take(n)[0] && y[0] == y.take(n)[0]);
        assert(x.skip(1).take(n - 1) =~= x.take(n).skip(1));
        assert(y.skip(1).take(n - 1) =~= y.take(n).skip(1));
        lemma_text_less(x.skip(1), y.skip(1), n - 1);
    }
}

proof fn lemma_common_less(
    a: Seq<Seq<char>>,
    b: Seq<Seq<char>>,
    common: Seq<Seq<char>>,
    x: Seq<char>,
    y: Seq<char>,
)
    requires
        common.push(x).is_prefix_of(a),
        common.push(y).is_prefix_of(b),
        x != y,
        part_less(x, y),
    ensures
        parts_less(a, b),
    decreases common.len(),
{
    let p = common.push(x);
    let q = common.push(y);
    assert(p[0] == a[0] && q[0] == b[0]);
    if common.len() > 0 {
        let t = common.skip(1);
        assert(p.skip(1) =~= t.push(x));
        assert(q.skip(1) =~= t.push(y));
        assert(t.push(x) =~= a.skip(1).take(p.len() - 1)) by {
            assert(a.take(p.len() as int) == p);
            assert(a.skip(1).take(p.len() - 1) =~= a.take(p.len() as int).skip(1));
        }
        assert(t.push(y) =~= b.skip(1).take(q.len() - 1)) by {
            assert(b.take(q.len() as int) == q);
            assert(b.skip(1).take(q.len() - 1) =~= b.take(q.len() as int).skip(1));
        }
        lemma_common_less(a.skip(1), b.skip(1), t, x, y);
    }
}

/// A path that is already there, however written, stays as it is; another one
/// is added, and no other leaves or changes.
pub proof fn inserting_adds_what_is_missing(s: Seq<Seq<char>>, p: Seq<char>)
    requires
        increasing(s),
    ensures
        holds_path(s, p) ==> inserted(s, p) == s,
        !holds_path(s, p) ==> inserted(s, p).to_multiset() == s.to_multiset().insert(p),
    decreases s.len(),
{
    if s.len() == 0 {
        assert(s =~= Seq::empty());
        assert(inserted(s, p) =~= s.push(p));
        s.to_multiset_ensures();
    } else {
        let t = s.skip(1);
        assert forall|i: int, j: int| 0 <= i < j < t.len() implies path_less(
            #[trigger] t[i],
            #[trigger] t[j],
        ) by {
            assert(t[i] == s[i + 1] && t[j] == s[j + 1]);
        }
        assert(s =~= seq![s[0]] + t);
        lemma_holds_path_cons(s[0], t, p);
        inserting_adds_what_is_missing(t, p);
        if parts(p) == parts(s[0]) {
        } else if path_less(p, s[0]) {
            if holds_path(s, p) {
                let k = choose|k: int| 0 <= k < s.len() && parts(#[trigger] s[k]) == parts(p);
                if k > 0 {
                    path_order_is_transitive(p, s[0], s[k]);
                }
                path_order_is_total(p, s[k]);
            }
            lemma_multiset_front(p, s);
        } else if !holds_path(s, p) {
            lemma_multiset_front(s[0], inserted(t, p));
            lemma_multiset_front(s[0], t);
            assert(t.to_multiset().insert(p).insert(s[0]) =~= t.to_multiset().insert(s[0]).insert(
                p,
            ));
        }
    }
}

proof fn lemma_multiset_front(x: Seq<char>, s: Seq<Seq<char>>)
    ensures
        (seq![x] + s).to_multiset() == s.to_multiset().insert(x),
{
    let t = seq![x] + s;
    t.to_multiset_ensures();
    assert(t.remove(0) =~= s);
    assert(t.to_multiset().count(x) > 0) by {
        assert(t[0] == x);
        assert(t.contains(x));
    }
    assert(s.to_multiset() == t.to_multiset().remove(x));
    assert(t.to_multiset().remove(x).insert(x) =~= t.to_multiset());
}

/// Sorted paths do not come before those that stand before them, and each is
/// there as often as it was.
pub proof fn sorted_paths_are_in_order(s: Seq<Seq<char>>)
    ensures
        forall|i: int, j: int|
            0 <= i < j < sorted(s).len() ==> !path_less(
                #[trigger] sorted(s)[j],
                #[trigger] sorted(s)[i],
            ),
        sorted(s).to_multiset() == s.to_multiset(),
    decreases s.len(),
{
    if s.len() > 0 {
        let t = s.drop_last();
        sorted_paths_are_in_order(t);
        lemma_placed_in_order(sorted(t), s.last());
        assert(s =~= t.push(s.last()));
        t.to_multiset_ensures();
    } else {
        assert(s =~= Seq::empty());
    }
}

proof fn lemma_placed_in_order(s: Seq<Seq<char>>, p: Seq<char>)
    requires
        forall|i: int, j: int|
            0 <= i < j < s.len() ==> !path_less(#[trigger] s[j], #[trigger] s[i]),
    ensures
        forall|i: int, j: int|
            0 <= i < j < placed(s, p).len() ==> !path_less(
                #[trigger] placed(s, p)[j],
                #[trigger] placed(s, p)[i],
            ),
        placed(s, p).to_multiset() == s.to_multiset().insert(p),
    decreases s.len(),
{
    let r = placed(s, p);
    if s.len() == 0 {
        assert(s =~= Seq::empty());
        assert(r =~= s.push(p));
        s.to_multiset_ensures();
    } else if path_less(p, s.last()) {
        let t = s.drop_last();
        lemma_placed_in_order(t, p);
        lemma_placed(t, p);
        let u = placed(t, p);
        u.to_multiset_ensures();
        t.to_multiset_ensures();
        assert(s =~= t.push(s.last()));
        assert(t.to_multiset().insert(p).insert(s.last()) =~= t.to_multiset().insert(
            s.last(),
        ).insert(p));
        assert forall|i: int, j: int| 0 <= i < j < r.len() implies !path_less(
            #[trigger] r[j],
            #[trigger] r[i],
        ) by {
            if j < u.len() {
                assert(r[j] == u[j] && r[i] == u[i]);
            } else {
                assert(r[i] == u[i]);
                assert(u.contains(u[i]));
                if u[i] == p {
                    path_order_is_total(p, s.last());
                } else {
                    let k = choose|k: int| 0 <= k < t.len() && t[k] == u[i];
                    assert(s[k] == u[i]);
                }
            }
        }
    } else {
        s.to_multiset_ensures();
        assert forall|i: int, j: int| 0 <= i < j < r.len() implies !path_less(
            #[trigger] r[j],
            #[trigger] r[i],
        ) by {
            if j == s.len() {
                if path_less(p, s[i]) {
                    if i < s.len() - 1 {
                        lemma_before_not_after(p, s[i], s.last());
                    }
                }
            }
        }
    }
}

/// What comes before a path comes before all that do not come before that path.
proof fn lemma_before_not_after(a: Seq<char>, b: Seq<char>, c: Seq<char>)
    requires
        path_less(a, b),
        !path_less(c, b),
    ensures
        path_less(a, c),
{
    path_order_is_total(b, c);
    if path_less(b, c) {
        path_order_is_transitive(a, b, c);
    }
}

/// Paths put into an increasing list leave it increasing, and after that it
/// holds what it held and what was put in.
pub proof fn inserting_all_adds_each(s: Seq<Seq<char>>, more: Seq<Seq<char>>)
    requires
        increasing(s),
    ensures
        increasing(inserted_all(s, more)),
        forall|q: Seq<char>| #[trigger]
            holds_path(inserted_all(s, more), q) == (holds_path(s, q) || holds_path(more, q)),
    decreases more.len(),
{
    if more.len() > 0 {
        let init = more.drop_last();
        inserting_all_adds_each(s, init);
        inserting_keeps_order(inserted_all(s, init), more.last());
        assert forall|q: Seq<char>| #[trigger] holds_path(inserted_all(s, more), q) == (holds_path(
            s,
            q,
        ) || holds_path(more, q)) by {
            assert(holds_path(inserted_all(s, init), q) == (holds_path(s, q) || holds_path(
                init,
                q,
            )));
            if holds_path(init, q) {
                let i = choose|i: int| 0 <= i < init.len() && parts(#[trigger] init[i]) == parts(q);
                assert(parts(more[i]) == parts(q));
            }
            if parts(q) == parts(more.last()) {
                assert(parts(more[more.len() - 1]) == parts(q));
            }
            if holds_path(more, q) {
                let i = choose|i: int| 0 <= i < more.len() && parts(#[trigger] more[i]) == parts(q);
                if i < init.len() {
                    assert(parts(init[i]) == parts(q));
                }
            }
        }
    } else {
        assert forall|q: Seq<char>| !#[trigger] holds_path(more, q) by {}
    }
}

/// The name of a path is a single component of its own.
pub proof fn lemma_base_name(s: Seq<char>)
    requires
        base_name(s) is Some,
    ensures
        !base_name(s)->0.contains('/'),
        base_name(s)->0.len() > 0,
        counts(base_name(s)->0),
        names_entry(base_name(s)->0),
        !rooted(base_name(s)->0),
        parts(base_name(s)->0) == seq![base_name(s)->0],
{
    lemma_parts_are_steps(s);
    let n = base_name(s)->0;
    let ps = parts(s);
    assert(ps[ps.len() - 1] == n);
    assert(is_step(n));
    written_components_are_read_back(seq![n]);
    assert(chars::join(seq![n], seq!['/']) == n);
    assert(written(seq![n]) == n);
    if rooted(n) {
        assert(n.contains(n[0]));
    }
}

} // verus!
