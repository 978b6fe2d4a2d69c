//! License header insertion.
//!
//! Replaces `${YEAR}` in the template, finds the line at which the real content
//! of a source file begins (the first `package`, `@file:`, `use` or the like),
//! and puts the rendered header in front of it. Whatever stands before that
//! line is discarded.

use crate::chars;
use crate::fspath;
use crate::text;
use vstd::prelude::*;

verus! {

/// How many lines from the top a header is looked for.
pub const HEADER_SCAN_LINES: usize = 10;

/// The kinds of source file that can carry a header.
#[derive(Debug, Clone, Copy, PartialEq, Eq, Structural)]
pub enum SourceKind {
    Kotlin,
    Kts,
    Java,
    Rust,
}

/// The placeholder of the year in a template.
pub open spec fn year_slot() -> Seq<char> {
    "${YEAR}"@
}

/// The kind of source that a file extension stands for.
pub open spec fn kind_of_extension(ext: Seq<char>) -> Option<SourceKind> {
    if ext == "kt"@ {
        Some(SourceKind::Kotlin)
    } else if ext == "kts"@ {
        Some(SourceKind::Kts)
    } else if ext == "java"@ {
        Some(SourceKind::Java)
    } else if ext == "rs"@ {
        Some(SourceKind::Rust)
    } else {
        None
    }
}

/// The kind of source that a path names, by its extension.
pub open spec fn kind_of_path(path: Seq<char>) -> Option<SourceKind> {
    match fspath::suffix(path) {
        Some(ext) => kind_of_extension(ext),
        None => None,
    }
}

/// Beginnings of a line that mark the start of the real content.
pub open spec fn delimiters(kind: SourceKind) -> Seq<Seq<char>> {
    match kind {
        SourceKind::Kotlin => seq!["package "@, "@file:"@],
        SourceKind::Kts => seq![
            "@file:"@,
            "import "@,
            "plugins "@,
            "buildscript "@,
            "dependencies "@,
            "pluginManagement"@,
            "dependencyResolutionManagement"@,
        ],
        SourceKind::Java => seq!["package "@],
        SourceKind::Rust => seq![
            "#!["@,
            "//!"@,
            "use "@,
            "mod "@,
            "pub "@,
            "fn "@,
            "impl "@,
            "struct "@,
            "enum "@,
            "trait "@,
            "const "@,
            "static "@,
            "type "@,
            "macro_rules!"@,
        ],
    }
}

/// The line, its indentation aside, begins the real content.
pub open spec fn is_delimiter_line(line: Seq<char>, kind: SourceKind) -> bool {
    exists|i: int|
        0 <= i < delimiters(kind).len() && chars::starts_with(
            chars::trim_start(line),
            #[trigger] delimiters(kind)[i],
        )
}

/// Length of the first line, its line feed included.
pub open spec fn first_line_len(s: Seq<char>) -> nat
    decreases s.len(),
{
    if s.len() == 0 {
        0
    } else if s[0] == '\n' {
        1
    } else {
        1 + first_line_len(s.skip(1))
    }
}

/// Where the first line stands that begins the real content.
pub open spec fn content_start(s: Seq<char>, kind: SourceKind) -> Option<int>
    decreases s.len(),
{
    let n = first_line_len(s) as int;
    if s.len() == 0 || n <= 0 || n > s.len() {
        None
    } else if is_delimiter_line(s.take(n), kind) {
        Some(0)
    } else {
        match content_start(s.skip(n), kind) {
            Some(i) => Some(n + i),
            None => None,
        }
    }
}

/// The text with the header on top: in place of what stands before the real
/// content, or before everything where none is found.
pub open spec fn with_header(s: Seq<char>, header: Seq<char>, kind: SourceKind) -> Seq<char> {
    match content_start(s, kind) {
        Some(i) => header + s.skip(i),
        None => header + s,
    }
}

/// The header for a year, ended by a line feed.
pub open spec fn rendered(template: Seq<char>, year: nat) -> Seq<char> {
    let body = chars::replace(template, year_slot(), chars::decimal(year));
    if chars::ends_with_char(body, '\n') {
        body
    } else {
        body.push('\n')
    }
}

/// The pieces, trimmed, of which something is left.
pub open spec fn trimmed_nonempty(pieces: Seq<Seq<char>>) -> Seq<Seq<char>>
    decreases pieces.len(),
{
    if pieces.len() == 0 {
        Seq::empty()
    } else {
        let rest = trimmed_nonempty(pieces.drop_last());
        let t = chars::trim(pieces.last());
        if t.len() > 0 {
            rest.push(t)
        } else {
            rest
        }
    }
}

/// The lines without the year, trimmed, of which something is left.
pub open spec fn yearless_lines(lines: Seq<Seq<char>>) -> Seq<Seq<char>>
    decreases lines.len(),
{
    if lines.len() == 0 {
        Seq::empty()
    } else {
        let rest = yearless_lines(lines.drop_last());
        let t = chars::trim(lines.last());
        if !chars::contains(lines.last(), year_slot()) && t.len() > 0 {
            rest.push(t)
        } else {
            rest
        }
    }
}

/// The parts of the lines around the year, trimmed, of which something is left.
pub open spec fn yearless_parts(lines: Seq<Seq<char>>) -> Seq<Seq<char>>
    decreases lines.len(),
{
    if lines.len() == 0 {
        Seq::empty()
    } else {
        yearless_parts(lines.drop_last()) + trimmed_nonempty(
            chars::split_str(lines.last(), year_slot()),
        )
    }
}

/// The longest of the texts, in bytes; of several the last.
pub open spec fn longest(texts: Seq<Seq<char>>) -> Option<Seq<char>>
    decreases texts.len(),
{
    if texts.len() == 0 {
        None
    } else {
        match longest(texts.drop_last()) {
            Some(best) => if chars::byte_len(best) > chars::byte_len(texts.last()) {
                Some(best)
            } else {
                Some(texts.last())
            },
            None => Some(texts.last()),
        }
    }
}

/// What tells a header of this template, of whatever year, from other text.
pub open spec fn marker(template: Seq<char>) -> Seq<char> {
    let lines = chars::lines(template);
    match longest(yearless_lines(lines)) {
        Some(line) => line,
        None => match longest(yearless_parts(lines)) {
            Some(part) => part,
            None => Seq::empty(),
        },
    }
}

/// The marker, if there is one at all, is in one of the first lines.
pub open spec fn marked(s: Seq<char>, marker: Seq<char>) -> bool {
    marker.len() > 0 && exists|i: int|
        0 <= i < chars::lines(s).len() && i < HEADER_SCAN_LINES && chars::contains(
            #[trigger] chars::lines(s)[i],
            marker,
        )
}

impl SourceKind {
    /// The kind of source that a path names, by its extension.
    pub fn from_path(path: &str) -> (r: Option<Self>)
        ensures
            r == kind_of_path(path@),
    {
        let ext = match fspath::extension(path) {
            Some(ext) => ext,
            None => {
                return None;
            },
        };
        if text::same(&ext, "kt") {
            Some(SourceKind::Kotlin)
        } else if text::same(&ext, "kts") {
            Some(SourceKind::Kts)
        } else if text::same(&ext, "java") {
            Some(SourceKind::Java)
        } else if text::same(&ext, "rs") {
            Some(SourceKind::Rust)
        } else {
            None
        }
    }

    /// Beginnings of a line that mark the start of the real content.
    fn delimiter_prefixes(self) -> (r: Vec<&'static str>)
        ensures
            r@.len() == delimiters(self).len(),
            forall|i: int| 0 <= i < r@.len() ==> (#[trigger] r@[i])@ == delimiters(self)[i],
    {
        match self {
            SourceKind::Kotlin => vec!["package ", "@file:"],
            SourceKind::Kts => vec![
                "@file:",
                "import ",
                "plugins ",
                "buildscript ",
                "dependencies ",
                "pluginManagement",
                "dependencyResolutionManagement",
            ],
            SourceKind::Java => vec!["package "],
            SourceKind::Rust => vec![
                "#![",
                "//!",
                "use ",
                "mod ",
                "pub ",
                "fn ",
                "impl ",
                "struct ",
                "enum ",
                "trait ",
                "const ",
                "static ",
                "type ",
                "macro_rules!",
            ],
        }
    }
}

/// Puts the year into the template, and a line feed at its end where none is.
pub fn render_header(template: &str, year: u32) -> (r: String)
    ensures
        r@ == rendered(template@, year as nat),
{
    let mut r = text::replace(template, "${YEAR}", &text::decimal(year as u64));
    if !text::ends_with_char(&r, '\n') {
        r.push('\n');
    }
    r
}

/// The longer of `best` and the last text, in bytes; of two equal ones the last.
fn longer(best: Option<String>, last: String) -> (r: String)
    ensures
        r@ == match best {
            Some(b) => if chars::byte_len(b@) > chars::byte_len(last@) {
                b@
            } else {
                last@
            },
            None => last@,
        },
{
    match best {
        Some(b) => if text::byte_len(&b) > text::byte_len(&last) {
            b
        } else {
            last
        },
        None => last,
    }
}

/// A piece of the template that is there whatever the year: the longest line
/// without `${YEAR}`, or the longest part of a line around it where every line
/// holds it.
pub fn marker_for_template(template: &str) -> (r: String)
    ensures
        r@ == marker(template@),
{
    let lines = text::lines(template);
    let ghost all = chars::lines(template@);
    let mut best: Option<String> = None;
    let mut i: usize = 0;
    while i < lines.len()
        invariant
            i <= lines.len(),
            all == chars::views(lines@),
            chars::opt_view(best) == longest(yearless_lines(all.take(i as int))),
        decreases lines.len() - i,
    {
        let ghost before = yearless_lines(all.take(i as int));
        assert(all.take(i + 1).drop_last() =~= all.take(i as int));
        assert(all[i as int] == lines@[i as int]@);
        if !text::contains(&lines[i], "${YEAR}") {
            let t = text::trim(&lines[i]);
            if !t.as_str().is_empty() {
                assert(before.push(t@).drop_last() =~= before);
                best = Some(longer(best, t));
            }
        }
        i += 1;
    }
    assert(all.take(i as int) =~= all);
    if let Some(line) = best {
        return line;
    }
    let mut best: Option<String> = None;
    let mut i: usize = 0;
    while i < lines.len()
        invariant
            i <= lines.len(),
            all == chars::views(lines@),
            chars::opt_view(best) == longest(yearless_parts(all.take(i as int))),
        decreases lines.len() - i,
    {
        let ghost before = yearless_parts(all.take(i as int));
        assert(all.take(i + 1).drop_last() =~= all.take(i as int));
        assert(all[i as int] == lines@[i as int]@);
        let pieces = text::split_str(&lines[i], "${YEAR}");
        let ghost ps = chars::split_str(all[i as int], year_slot());
        let mut k: usize = 0;
        assert(before + trimmed_nonempty(ps.take(0)) =~= before);
        while k < pieces.len()
            invariant
                k <= pieces.len(),
                ps == chars::views(pieces@),
                chars::opt_view(best) == longest(before + trimmed_nonempty(ps.take(k as int))),
            decreases pieces.len() - k,
        {
            let ghost sofar = before + trimmed_nonempty(ps.take(k as int));
            assert(ps.take(k + 1).drop_last() =~= ps.take(k as int));
            assert(ps[k as int] == pieces@[k as int]@);
            let t = text::trim(&pieces[k]);
            if !t.as_str().is_empty() {
                assert(sofar.push(t@).drop_last() =~= sofar);
                assert(before + trimmed_nonempty(ps.take(k + 1)) =~= sofar.push(t@));
                best = Some(longer(best, t));
            }
            k += 1;
        }
        assert(ps.take(k as int) =~= ps);
        i += 1;
    }
    assert(all.take(i as int) =~= all);
    match best {
        Some(part) => part,
        None => String::new(),
    }
}

/// Whether the first few lines of `content` hold the marker.
pub fn has_header(content: &str, marker: &str) -> (r: bool)
    ensures
        r == marked(content@, marker@),
{
    if marker.is_empty() {
        return false;
    }
    let lines = text::lines(content);
    let ghost all = chars::lines(content@);
    let mut i: usize = 0;
    while i < lines.len() && i < HEADER_SCAN_LINES
        invariant
            i <= lines.len(),
            all == chars::views(lines@),
            all == chars::lines(content@),
            marker@.len() > 0,
            forall|j: int| 0 <= j < i ==> !chars::contains(#[trigger] all[j], marker@),
        decreases lines.len() - i,
    {
        assert(all[i as int] == lines@[i as int]@);
        if text::contains(&lines[i], marker) {
            return true;
        }
        i += 1;
    }
    false
}

/// Whether the line, its indentation aside, begins the real content.
fn begins_content(line: &str, prefixes: &Vec<&'static str>, Ghost(kind): Ghost<SourceKind>) -> (r:
    bool)
    requires
        prefixes@.len() == delimiters(kind).len(),
        forall|i: int| 0 <= i < prefixes@.len() ==> (#[trigger] prefixes@[i])@ == delimiters(
            kind,
        )[i],
    ensures
        r == is_delimiter_line(line@, kind),
{
    let t = text::trim_start(line);
    let mut i: usize = 0;
    while i < prefixes.len()
        invariant
            i <= prefixes.len(),
            t@ == chars::trim_start(line@),
            prefixes@.len() == delimiters(kind).len(),
            forall|i: int|
                0 <= i < prefixes@.len() ==> (#[trigger] prefixes@[i])@ == delimiters(kind)[i],
            forall|j: int| 0 <= j < i ==> !chars::starts_with(t@, #[trigger] delimiters(kind)[j]),
        decreases prefixes.len() - i,
    {
        assert(prefixes@[i as int]@ == delimiters(kind)[i as int]);
        if text::starts_with(&t, prefixes[i]) {
            return true;
        }
        i += 1;
    }
    false
}

proof fn lemma_first_line_len(s: Seq<char>)
    ensures
        first_line_len(s) <= s.len(),
        s.len() > 0 ==> first_line_len(s) > 0,
    decreases s.len(),
{
    if s.len() > 0 && s[0] != '\n' {
        lemma_first_line_len(s.skip(1));
    }
}

/// Puts `header` on top of `content`, in place of what stands before the real
/// content.
pub fn insert_header(content: &str, header: &str, kind: SourceKind) -> (r: String)
    ensures
        r@ == with_header(content@, header@, kind),
{
    let prefixes = kind.delimiter_prefixes();
    let v = text::chars_of(content);
    let mut r = header.to_owned();
    let mut start: usize = 0;
    assert(v@.skip(0) =~= v@);
    while start < v.len()
        invariant
            start <= v.len(),
            v@ == content@,
            r@ == header@,
            prefixes@.len() == delimiters(kind).len(),
            forall|i: int|
                0 <= i < prefixes@.len() ==> (#[trigger] prefixes@[i])@ == delimiters(kind)[i],
            content_start(content@, kind) == match content_start(content@.skip(start as int), kind) {
                Some(i) => Some(start + i),
                None => None,
            },
        decreases v.len() - start,
    {
        let ghost t = content@.skip(start as int);
        let mut end: usize = start;
        let mut open = true;
        assert(t.skip(0) =~= t);
        proof {
            lemma_first_line_len(t);
        }
        while open && end < v.len()
            invariant
                start <= end <= v.len(),
                v@ == content@,
                t == content@.skip(start as int),
                open ==> first_line_len(t) == (end - start) + first_line_len(t.skip(end - start)),
                !open ==> first_line_len(t) == end - start && end > start,
            decreases v.len() - end,
        {
            proof {
                let u = t.skip(end - start);
                assert(u[0] == v@[end as int]);
                assert(u.skip(1) =~= t.skip(end + 1 - start));
            }
            open = v[end] != '\n';
            end += 1;
        }
        assert(first_line_len(t) == end - start) by {
            if open {
                assert(t.skip(end - start) =~= Seq::<char>::empty());
            }
        }
        let line = text::slice(&v, start, end);
        assert(line@ =~= t.take(end - start));
        if begins_content(&line, &prefixes, Ghost(kind)) {
            let rest = text::slice(&v, start, v.len());
            assert(rest@ =~= content@.skip(start as int));
            r.push_str(&rest);
            return r;
        }
        assert(t.skip(end - start) =~= content@.skip(end as int));
        start = end;
    }
    assert(content@.skip(start as int) =~= Seq::<char>::empty());
    r.push_str(content);
    r
}

/// A line of the template whose text around the year holds `m` once trimmed.
pub open spec fn is_source(line: Seq<char>, m: Seq<char>) -> bool {
    ||| !chars::contains(line, year_slot()) && chars::trim(line) == m
    ||| exists|k: int|
        0 <= k < chars::split_str(line, year_slot()).len() && chars::trim(
            #[trigger] chars::split_str(line, year_slot())[k],
        ) == m
}

proof fn lemma_year_slot(year: nat)
    ensures
        year_slot().len() == 7,
        !year_slot().contains('\n'),
        !year_slot().contains('\r'),
        chars::decimal(year).len() > 0,
        !chars::decimal(year).contains('\n'),
{
    reveal_strlit("${YEAR}");
    let d = chars::decimal(year);
    chars::lemma_decimal_value(year);
    if d.contains('\n') {
        let i = choose|i: int| 0 <= i < d.len() && d[i] == '\n';
        assert(chars::is_digit(d[i]));
    }
}

/// The pieces with the year put into each.
pub open spec fn dated(pieces: Seq<Seq<char>>, year: nat) -> Seq<Seq<char>> {
    pieces.map_values(|p: Seq<char>| chars::replace(p, year_slot(), chars::decimal(year)))
}

proof fn lemma_replace_split(s: Seq<char>, year: nat)
    ensures
        chars::split(chars::replace(s, year_slot(), chars::decimal(year)), '\n') == dated(
            chars::split(s, '\n'),
            year,
        ),
    decreases s.len(),
{
    let p = year_slot();
    let r = chars::decimal(year);
    lemma_year_slot(year);
    if !s.contains('\n') {
        chars::lemma_replace_no_char(s, p, r, '\n');
        chars::lemma_split_single(s, '\n');
        chars::lemma_split_single(chars::replace(s, p, r), '\n');
        assert(dated(seq![s], year) =~= seq![chars::replace(s, p, r)]);
    } else {
        let i = s.index_of_first('\n')->0;
        s.index_of_first_ensures('\n');
        let a = s.take(i);
        let b = s.skip(i + 1);
        assert(s =~= a.push('\n') + b);
        if a.contains('\n') {
            let j = choose|j: int| 0 <= j < a.len() && a[j] == '\n';
            assert(s[j] == '\n');
        }
        chars::lemma_replace_append(a, '\n', b, p, r);
        chars::lemma_split_append(a, '\n', b);
        chars::lemma_split_append(chars::replace(a, p, r), '\n', chars::replace(b, p, r));
        chars::lemma_replace_no_char(a, p, r, '\n');
        chars::lemma_split_single(a, '\n');
        chars::lemma_split_single(chars::replace(a, p, r), '\n');
        lemma_replace_split(b, year);
        assert(dated(seq![a] + chars::split(b, '\n'), year) =~= seq![chars::replace(a, p, r)]
            + dated(chars::split(b, '\n'), year));
    }
}

/// Dropping a carriage return from the end keeps what does not end with one.
pub proof fn lemma_strip_cr_contains(l: Seq<char>, m: Seq<char>)
    requires
        chars::contains(l, m),
        m.len() > 0,
        m.last() != '\r',
    ensures
        chars::contains(chars::strip_cr(l), m),
{
    let i = choose|i: int| chars::occurs_at(l, m, i);
    let t = chars::strip_cr(l);
    assert(m.last() == l.subrange(i, i + m.len())[m.len() - 1]);
    assert(t.subrange(i, i + m.len()) =~= l.subrange(i, i + m.len()));
    assert(chars::occurs_at(t, m, i));
}

/// A line of the template that is a source of `m` still holds `m` once the year
/// is in it.
proof fn lemma_source_survives(piece: Seq<char>, line: Seq<char>, m: Seq<char>, year: nat)
    requires
        line == piece || line == chars::strip_cr(piece),
        is_source(line, m),
    ensures
        chars::contains(chars::replace(piece, year_slot(), chars::decimal(year)), m),
{
    let p = year_slot();
    let r = chars::decimal(year);
    lemma_year_slot(year);
    let body = chars::replace(line, p, r);
    if !chars::contains(line, p) && chars::trim(line) == m {
        chars::lemma_trim(line);
        chars::lemma_replace_absent(line, p, r);
    } else {
        let k = choose|k: int|
            0 <= k < chars::split_str(line, p).len() && chars::trim(
                #[trigger] chars::split_str(line, p)[k],
            ) == m;
        chars::lemma_trim(chars::split_str(line, p)[k]);
        chars::lemma_replace_keeps_pieces(line, p, r, k);
        chars::lemma_contains_transitive(body, chars::split_str(line, p)[k], m);
    }
    if line != piece {
        let e = Seq::<char>::empty();
        assert(piece =~= line.push('\r') + e);
        chars::lemma_replace_append(line, '\r', e, p, r);
        chars::lemma_contains_widen(e, body, seq!['\r'], m);
        assert(e + body + seq!['\r'] =~= body.push('\r') + e);
    }
}

/// A rendered header holds the marker wherever the template has a line, among
/// its first few, that gives rise to it.
pub proof fn rendered_header_is_marked(template: Seq<char>, year: nat, m: Seq<char>, i: int)
    requires
        0 <= i < chars::lines(template).len(),
        i < HEADER_SCAN_LINES,
        m.len() > 0,
        is_source(chars::lines(template)[i], m),
    ensures
        marked(rendered(template, year), m),
{
    let p = year_slot();
    let r = chars::decimal(year);
    let pieces = chars::split(template, '\n');
    let line = chars::lines(template)[i];
    let body = chars::replace(template, p, r);
    let whole = rendered(template, year);
    let out = chars::lines(whole);
    let dp = dated(pieces, year);
    chars::lemma_split_nonempty(template, '\n');
    lemma_year_slot(year);
    lemma_replace_split(template, year);
    assert(line == pieces[i] || line == chars::strip_cr(pieces[i]));
    lemma_source_survives(pieces[i], line, m, year);
    let hit = dp[i];
    assert(hit == chars::replace(pieces[i], p, r));
    assert(m.last() != '\r') by {
        if !chars::contains(line, p) && chars::trim(line) == m {
            chars::lemma_trim(line);
        } else {
            let k = choose|k: int|
                0 <= k < chars::split_str(line, p).len() && chars::trim(
                    #[trigger] chars::split_str(line, p)[k],
                ) == m;
            chars::lemma_trim(chars::split_str(line, p)[k]);
        }
    }
    lemma_strip_cr_contains(hit, m);
    chars::lemma_replace_len(pieces[i], p, r);
    assert(hit.len() >= m.len()) by {
        let j = choose|j: int| chars::occurs_at(hit, m, j);
    }
    assert(whole == body || whole == body.push('\n'));
    if whole == body {
        assert(i < out.len());
        assert(out[i] == hit || out[i] == chars::strip_cr(hit));
    } else {
        let e = Seq::<char>::empty();
        chars::lemma_split_append(body, '\n', e);
        assert(body.push('\n') + e =~= body.push('\n'));
        assert((dp + seq![e]).drop_last() =~= dp);
        assert(out == chars::strip_crs(dp));
        assert(out[i] == chars::strip_cr(hit));
    }
    assert(chars::contains(out[i], m));
}

proof fn lemma_trimmed_nonempty_source(pieces: Seq<Seq<char>>, j: int) -> (k: int)
    requires
        0 <= j < trimmed_nonempty(pieces).len(),
    ensures
        0 <= k < pieces.len(),
        chars::trim(pieces[k]) == trimmed_nonempty(pieces)[j],
        trimmed_nonempty(pieces)[j].len() > 0,
    decreases pieces.len(),
{
    let rest = trimmed_nonempty(pieces.drop_last());
    if j < rest.len() {
        lemma_trimmed_nonempty_source(pieces.drop_last(), j)
    } else {
        pieces.len() - 1
    }
}

proof fn lemma_yearless_lines_source(lines: Seq<Seq<char>>, j: int) -> (i: int)
    requires
        0 <= j < yearless_lines(lines).len(),
    ensures
        0 <= i < lines.len(),
        is_source(lines[i], yearless_lines(lines)[j]),
        yearless_lines(lines)[j].len() > 0,
    decreases lines.len(),
{
    if j < yearless_lines(lines.drop_last()).len() {
        lemma_yearless_lines_source(lines.drop_last(), j)
    } else {
        lines.len() - 1
    }
}

proof fn lemma_yearless_parts_source(lines: Seq<Seq<char>>, j: int) -> (i: int)
    requires
        0 <= j < yearless_parts(lines).len(),
    ensures
        0 <= i < lines.len(),
        is_source(lines[i], yearless_parts(lines)[j]),
        yearless_parts(lines)[j].len() > 0,
    decreases lines.len(),
{
    let n = yearless_parts(lines.drop_last()).len();
    if j < n {
        lemma_yearless_parts_source(lines.drop_last(), j)
    } else {
        let pieces = chars::split_str(lines.last(), year_slot());
        let k = lemma_trimmed_nonempty_source(pieces, j - n);
        assert(chars::trim(chars::split_str(lines.last(), year_slot())[k]) == yearless_parts(
            lines,
        )[j]);
        lines.len() - 1
    }
}

proof fn lemma_longest_member(texts: Seq<Seq<char>>) -> (j: int)
    requires
        texts.len() > 0,
    ensures
        0 <= j < texts.len(),
        longest(texts) == Some(texts[j]),
    decreases texts.len(),
{
    match longest(texts.drop_last()) {
        Some(best) => if chars::byte_len(best) > chars::byte_len(texts.last()) {
            if texts.drop_last().len() > 0 {
                lemma_longest_member(texts.drop_last())
            } else {
                0
            }
        } else {
            texts.len() - 1
        },
        None => texts.len() - 1,
    }
}

/// No text is longer than the longest.
pub proof fn longest_is_longest(texts: Seq<Seq<char>>, j: int)
    requires
        0 <= j < texts.len(),
    ensures
        longest(texts) is Some,
        chars::byte_len(longest(texts)->0) >= chars::byte_len(texts[j]),
    decreases texts.len(),
{
    if j < texts.len() - 1 {
        longest_is_longest(texts.drop_last(), j);
    }
}

/// A marker comes from a line of its template and neither begins nor ends with
/// whitespace.
pub proof fn marker_comes_from_a_line(template: Seq<char>) -> (i: int)
    requires
        marker(template).len() > 0,
    ensures
        0 <= i < chars::lines(template).len(),
        is_source(chars::lines(template)[i], marker(template)),
        !chars::is_whitespace(marker(template)[0]),
        !chars::is_whitespace(marker(template).last()),
{
    let lines = chars::lines(template);
    let m = marker(template);
    let a = yearless_lines(lines);
    let b = yearless_parts(lines);
    let i = if a.len() > 0 {
        let j = lemma_longest_member(a);
        lemma_yearless_lines_source(lines, j)
    } else {
        let j = lemma_longest_member(b);
        lemma_yearless_parts_source(lines, j)
    };
    let line = lines[i];
    if !chars::contains(line, year_slot()) && chars::trim(line) == m {
        chars::lemma_trim(line);
    } else {
        let k = choose|k: int|
            0 <= k < chars::split_str(line, year_slot()).len() && chars::trim(
                #[trigger] chars::split_str(line, year_slot())[k],
            ) == m;
        chars::lemma_trim(chars::split_str(line, year_slot())[k]);
    }
    i
}

/// A template of no more lines than are looked at renders, for every year, to a
/// header that its marker finds.
pub proof fn short_template_is_recognized(template: Seq<char>, year: nat)
    requires
        chars::lines(template).len() <= HEADER_SCAN_LINES,
        marker(template).len() > 0,
    ensures
        marked(rendered(template, year), marker(template)),
{
    let i = marker_comes_from_a_line(template);
    rendered_header_is_marked(template, year, marker(template), i);
}

/// A rendered header ends with a line feed.
pub proof fn rendered_header_ends_line(template: Seq<char>, year: nat)
    ensures
        chars::ends_with_char(rendered(template, year), '\n'),
{
}

/// A rendered header holds no slot for the year any more.
pub proof fn rendered_header_has_no_slot(template: Seq<char>, year: nat)
    ensures
        !chars::contains(rendered(template, year), year_slot()),
{
    let p = year_slot();
    let r = chars::decimal(year);
    let body = chars::replace(template, p, r);
    lemma_year_slot(year);
    reveal_strlit("${YEAR}");
    chars::lemma_decimal_value(year);
    assert forall|i: int| 0 <= i < r.len() implies !p.contains(#[trigger] r[i]) by {
        assert(chars::is_digit(r[i]));
        if p.contains(r[i]) {
            let k = choose|k: int| 0 <= k < p.len() && p[k] == r[i];
            assert(!chars::is_digit(p[k]));
        }
    }
    chars::lemma_replace_leaves_none(template, p, r);
    let whole = rendered(template, year);
    if chars::contains(whole, p) {
        let j = choose|j: int| chars::occurs_at(whole, p, j);
        if j + p.len() > body.len() {
            assert(whole.subrange(j, j + p.len())[p.len() - 1] == '\n');
            assert(p.contains(p[p.len() - 1]));
        } else {
            assert(body.subrange(j, j + p.len()) =~= p);
            assert(chars::occurs_at(body, p, j));
        }
    }
}

/// A line among the first few that holds the marker makes the text a marked one.
pub proof fn lemma_piece_is_marked(s: Seq<char>, i: int, m: Seq<char>)
    requires
        0 <= i < chars::split(s, '\n').len(),
        i < HEADER_SCAN_LINES,
        m.len() > 0,
        m.last() != '\r',
        chars::contains(chars::split(s, '\n')[i], m),
    ensures
        marked(s, m),
{
    let pieces = chars::split(s, '\n');
    let lines = chars::lines(s);
    let p = pieces[i];
    assert(p.len() >= m.len()) by {
        let j = choose|j: int| chars::occurs_at(p, m, j);
    }
    lemma_strip_cr_contains(p, m);
    assert(i < lines.len());
    assert(lines[i] == p || lines[i] == chars::strip_cr(p));
    assert(chars::contains(lines[i], m));
}

/// A text with a recognizable header on top is recognized, whatever follows. A
/// marker that ends with a carriage return needs a header that ends its line.
pub proof fn insertion_is_recognized(
    s: Seq<char>,
    header: Seq<char>,
    kind: SourceKind,
    m: Seq<char>,
)
    requires
        marked(header, m),
        m.last() != '\r' || chars::ends_with_char(header, '\n'),
    ensures
        marked(with_header(s, header, kind), m),
{
    let rest = match content_start(s, kind) {
        Some(i) => s.skip(i),
        None => s,
    };
    let out = with_header(s, header, kind);
    let i = choose|i: int|
        0 <= i < chars::lines(header).len() && i < HEADER_SCAN_LINES && chars::contains(
            #[trigger] chars::lines(header)[i],
            m,
        );
    if chars::ends_with_char(header, '\n') {
        let a = header.drop_last();
        assert(a.push('\n') =~= header);
        chars::lemma_lines_append(a, rest);
        assert(chars::lines(out)[i] == chars::lines(header)[i]);
    } else {
        let e = Seq::<char>::empty();
        let pieces = chars::split(header, '\n');
        let p = pieces[i];
        chars::lemma_split_nonempty(header, '\n');
        chars::lemma_split_nonempty(rest, '\n');
        chars::lemma_split_concat(header, '\n', rest);
        assert(chars::contains(p, m)) by {
            let line = chars::lines(header)[i];
            if line != p {
                chars::lemma_contains_widen(e, line, seq!['\r'], m);
                assert(e + line + seq!['\r'] =~= p);
            }
        }
        if i + 1 == pieces.len() {
            let first = chars::split(rest, '\n')[0];
            chars::lemma_contains_widen(e, p, first, m);
            assert(e + p + first =~= p + first);
        }
        lemma_piece_is_marked(out, i, m);
    }
}

/// The result begins with the header and ends with the real content, which is
/// the end of the text.
pub proof fn insertion_keeps_content(s: Seq<char>, header: Seq<char>, kind: SourceKind)
    ensures
        chars::starts_with(with_header(s, header, kind), header),
        match content_start(s, kind) {
            Some(i) => 0 <= i < s.len() && chars::ends_with(
                with_header(s, header, kind),
                s.skip(i),
            ),
            None => chars::ends_with(with_header(s, header, kind), s),
        },
{
    lemma_content_start(s, kind);
    let out = with_header(s, header, kind);
    let rest = match content_start(s, kind) {
        Some(i) => s.skip(i),
        None => s,
    };
    assert(out.take(header.len() as int) =~= header);
    assert(out.skip(out.len() - rest.len()) =~= rest);
}

/// The first line of a text that goes on after it.
proof fn lemma_first_line_append(a: Seq<char>, b: Seq<char>)
    requires
        chars::ends_with_char(a, '\n'),
    ensures
        first_line_len(a + b) == first_line_len(a),
        0 < first_line_len(a) <= a.len(),
        first_line_len(a) < a.len() ==> chars::ends_with_char(
            a.skip(first_line_len(a) as int),
            '\n',
        ),
    decreases a.len(),
{
    assert((a + b)[0] == a[0]);
    if a[0] != '\n' {
        assert((a + b).skip(1) =~= a.skip(1) + b);
        lemma_first_line_append(a.skip(1), b);
        let n = first_line_len(a) as int;
        assert(a.skip(n) =~= a.skip(1).skip(n - 1));
    }
}

/// Lines without real content do not change where it starts in what follows.
proof fn lemma_content_start_append(a: Seq<char>, b: Seq<char>, kind: SourceKind)
    requires
        a.len() == 0 || chars::ends_with_char(a, '\n'),
        content_start(a, kind) is None,
    ensures
        content_start(a + b, kind) == match content_start(b, kind) {
            Some(i) => Some(a.len() + i),
            None => None,
        },
    decreases a.len(),
{
    if a.len() == 0 {
        assert(a + b =~= b);
    } else {
        lemma_first_line_append(a, b);
        let n = first_line_len(a) as int;
        assert((a + b).take(n) =~= a.take(n));
        assert((a + b).skip(n) =~= a.skip(n) + b);
        lemma_content_start_append(a.skip(n), b, kind);
    }
}

/// The real content starts at its own beginning.
proof fn lemma_content_starts_itself(s: Seq<char>, kind: SourceKind)
    ensures
        content_start(s, kind) matches Some(i) ==> content_start(s.skip(i), kind) == Some(0int),
    decreases s.len(),
{
    let n = first_line_len(s) as int;
    if s.len() > 0 && 0 < n <= s.len() {
        if is_delimiter_line(s.take(n), kind) {
            assert(s.skip(0) =~= s);
        } else {
            lemma_content_starts_itself(s.skip(n), kind);
            lemma_content_start(s.skip(n), kind);
            if let Some(i) = content_start(s.skip(n), kind) {
                assert(s.skip(n).skip(i) =~= s.skip(n + i));
            }
        }
    }
}

/// A second header replaces the first, where the text has real content and the
/// first header is lines without any.
pub proof fn second_header_replaces_the_first(
    s: Seq<char>,
    first: Seq<char>,
    second: Seq<char>,
    kind: SourceKind,
)
    requires
        content_start(s, kind) is Some,
        content_start(first, kind) is None,
        first.len() == 0 || chars::ends_with_char(first, '\n'),
    ensures
        with_header(with_header(s, first, kind), second, kind) == with_header(s, second, kind),
{
    let i = content_start(s, kind)->0;
    let content = s.skip(i);
    lemma_content_starts_itself(s, kind);
    lemma_content_start_append(first, content, kind);
    assert((first + content).skip(first.len() as int) =~= content);
}

proof fn lemma_content_start(s: Seq<char>, kind: SourceKind)
    ensures
        content_start(s, kind) matches Some(i) ==> 0 <= i < s.len(),
    decreases s.len(),
{
    let n = first_line_len(s) as int;
    if s.len() > 0 && 0 < n <= s.len() {
        lemma_content_start(s.skip(n), kind);
    }
}

/// The line, its indentation aside, begins with a word that starts code of the
/// kind.
pub open spec fn opens_code(line: Seq<char>, kind: SourceKind) -> bool {
    let t = chars::trim_start(line);
    match kind {
        SourceKind::Kotlin => {
            ||| chars::starts_with(t, "package "@)
            ||| chars::starts_with(t, "@file:"@)
        },
        SourceKind::Kts => {
            ||| chars::starts_with(t, "@file:"@)
            ||| chars::starts_with(t, "import "@)
            ||| chars::starts_with(t, "plugins "@)
            ||| chars::starts_with(t, "buildscript "@)
            ||| chars::starts_with(t, "dependencies "@)
            ||| chars::starts_with(t, "pluginManagement"@)
            ||| chars::starts_with(t, "dependencyResolutionManagement"@)
        },
        SourceKind::Java => chars::starts_with(t, "package "@),
        SourceKind::Rust => {
            ||| chars::starts_with(t, "#!["@)
            ||| chars::starts_with(t, "//!"@)
            ||| chars::starts_with(t, "use "@)
            ||| chars::starts_with(t, "mod "@)
            ||| chars::starts_with(t, "pub "@)
            ||| chars::starts_with(t, "fn "@)
            ||| chars::starts_with(t, "impl "@)
            ||| chars::starts_with(t, "struct "@)
            ||| chars::starts_with(t, "enum "@)
            ||| chars::starts_with(t, "trait "@)
            ||| chars::starts_with(t, "const "@)
            ||| chars::starts_with(t, "static "@)
            ||| chars::starts_with(t, "type "@)
            ||| chars::starts_with(t, "macro_rules!"@)
        },
    }
}

/// The real content of a file begins at the words that start code of its kind,
/// and at no others.
pub proof fn content_begins_with_code(line: Seq<char>, kind: SourceKind)
    ensures
        is_delimiter_line(line, kind) <==> opens_code(line, kind),
{
    let t = chars::trim_start(line);
    let d = delimiters(kind);
    if is_delimiter_line(line, kind) {
        let i = choose|i: int| 0 <= i < d.len() && chars::starts_with(t, #[trigger] d[i]);
        assert(chars::starts_with(t, d[i]));
    }
    if opens_code(line, kind) {
        match kind {
            SourceKind::Kotlin => {
                assert(d[0] == "package "@ && d[1] == "@file:"@);
            },
            SourceKind::Kts => {
                assert(d[0] == "@file:"@ && d[1] == "import "@ && d[2] == "plugins "@ && d[3]
                    == "buildscript "@ && d[4] == "dependencies "@ && d[5] == "pluginManagement"@
                    && d[6] == "dependencyResolutionManagement"@);
            },
            SourceKind::Java => {
                assert(d[0] == "package "@);
            },
            SourceKind::Rust => {
                assert(d[0] == "#!["@ && d[1] == "//!"@ && d[2] == "use "@ && d[3] == "mod "@
                    && d[4] == "pub "@ && d[5] == "fn "@ && d[6] == "impl "@ && d[7] == "struct "@
                    && d[8] == "enum "@ && d[9] == "trait "@ && d[10] == "const "@ && d[11]
                    == "static "@ && d[12] == "type "@ && d[13] == "macro_rules!"@);
            },
        }
    }
}

/// The words of code neither begin with whitespace nor hold a line feed.
proof fn lemma_code_words(kind: SourceKind, i: int)
    requires
        0 <= i < delimiters(kind).len(),
    ensures
        delimiters(kind)[i].len() > 0,
        !chars::is_whitespace(delimiters(kind)[i][0]),
        !delimiters(kind)[i].contains('\n'),
{
    reveal_strlit("package ");
    reveal_strlit("@file:");
    reveal_strlit("import ");
    reveal_strlit("plugins ");
    reveal_strlit("buildscript ");
    reveal_strlit("dependencies ");
    reveal_strlit("pluginManagement");
    reveal_strlit("dependencyResolutionManagement");
    reveal_strlit("#![");
    reveal_strlit("//!");
    reveal_strlit("use ");
    reveal_strlit("mod ");
    reveal_strlit("pub ");
    reveal_strlit("fn ");
    reveal_strlit("impl ");
    reveal_strlit("struct ");
    reveal_strlit("enum ");
    reveal_strlit("trait ");
    reveal_strlit("const ");
    reveal_strlit("static ");
    reveal_strlit("type ");
    reveal_strlit("macro_rules!");
}

/// Whitespace aside, the line feed that ends a line stays behind it.
proof fn lemma_trim_start_push(s: Seq<char>)
    ensures
        chars::trim_start(s.push('\n')) == if chars::trim_start(s).len() == 0 {
            Seq::<char>::empty()
        } else {
            chars::trim_start(s).push('\n')
        },
    decreases s.len(),
{
    let t = s.push('\n');
    if s.len() == 0 {
        assert(t.skip(1) =~= Seq::<char>::empty());
        assert(chars::trim_start(t) == chars::trim_start(t.skip(1)));
    } else if chars::is_whitespace(s[0]) {
        assert(t.skip(1) =~= s.skip(1).push('\n'));
        lemma_trim_start_push(s.skip(1));
    }
}

/// A line begins real content whether or not it is taken with its line feed.
proof fn lemma_delimiter_line_push(line: Seq<char>, kind: SourceKind)
    ensures
        is_delimiter_line(line.push('\n'), kind) == is_delimiter_line(line, kind),
{
    let d = delimiters(kind);
    let t = chars::trim_start(line);
    let u = chars::trim_start(line.push('\n'));
    lemma_trim_start_push(line);
    assert forall|i: int| 0 <= i < d.len() implies chars::starts_with(u, #[trigger] d[i])
        == chars::starts_with(t, d[i]) by {
        lemma_code_words(kind, i);
        let w = d[i];
        if t.len() > 0 {
            if chars::starts_with(t, w) {
                assert(u.take(w.len() as int) =~= t.take(w.len() as int));
            }
            if chars::starts_with(u, w) {
                if w.len() == u.len() {
                    assert(w[w.len() - 1] == u.take(w.len() as int)[w.len() - 1]);
                    assert(w.contains('\n'));
                }
                assert(u.take(w.len() as int) =~= t.take(w.len() as int));
            }
        }
    }
}

/// The first line of a text is its first piece between line feeds.
proof fn lemma_first_line(s: Seq<char>)
    requires
        s.len() > 0,
    ensures
        ({
            let n = first_line_len(s) as int;
            let p = chars::split(s, '\n');
            &&& 0 < n <= s.len()
            &&& p.len() >= 1
            &&& p.len() == 1 ==> n == s.len() && p[0] == s
            &&& p.len() > 1 ==> s.take(n) == p[0].push('\n') && chars::split(s.skip(n), '\n')
                == p.skip(1)
        }),
    decreases s.len(),
{
    let n = first_line_len(s) as int;
    let p = chars::split(s, '\n');
    let t = s.skip(1);
    let q = chars::split(t, '\n');
    chars::lemma_split_nonempty(t, '\n');
    if s[0] == '\n' {
        assert(p.skip(1) =~= q);
        assert(s.take(1) =~= Seq::<char>::empty().push('\n'));
    } else if t.len() == 0 {
        assert(q =~= seq![Seq::<char>::empty()]);
        assert(p[0] =~= s);
    } else {
        lemma_first_line(t);
        assert(p[0] == seq![s[0]] + q[0]);
        if q.len() == 1 {
            assert(p[0] =~= s);
        } else {
            assert(s.take(n) =~= seq![s[0]] + t.take(n - 1));
            assert(p[0].push('\n') =~= seq![s[0]] + q[0].push('\n'));
            assert(s.skip(n) =~= t.skip(n - 1));
            assert(p.skip(1) =~= q.skip(1));
        }
    }
}

/// A text none of whose lines begins with a word of code is kept whole behind
/// the header.
pub proof fn text_without_code_is_kept_whole(s: Seq<char>, header: Seq<char>, kind: SourceKind)
    requires
        forall|i: int|
            0 <= i < chars::split(s, '\n').len() ==> !opens_code(
                #[trigger] chars::split(s, '\n')[i],
                kind,
            ),
    ensures
        content_start(s, kind) is None,
        with_header(s, header, kind) == header + s,
    decreases s.len(),
{
    if s.len() > 0 {
        let n = first_line_len(s) as int;
        let p = chars::split(s, '\n');
        lemma_first_line(s);
        content_begins_with_code(p[0], kind);
        lemma_delimiter_line_push(p[0], kind);
        assert(!opens_code(p[0], kind));
        let t = s.skip(n);
        if p.len() == 1 {
            assert(s.take(n) =~= s);
            assert(t =~= Seq::<char>::empty());
        } else {
            assert forall|i: int| 0 <= i < chars::split(t, '\n').len() implies !opens_code(
                #[trigger] chars::split(t, '\n')[i],
                kind,
            ) by {
                assert(chars::split(t, '\n')[i] == p[i + 1]);
            }
            text_without_code_is_kept_whole(t, header, kind);
        }
    }
}

/// The header stands in the place of all lines before the first that begins
/// with a word of code, and that line and all behind it are kept: where no line
/// of `before` does and the first of `code` does, the result is the header and
/// `code`.
pub proof fn header_stands_before_the_code(
    before: Seq<char>,
    code: Seq<char>,
    header: Seq<char>,
    kind: SourceKind,
)
    requires
        before.len() == 0 || before.last() == '\n',
        forall|i: int|
            0 <= i < chars::split(before, '\n').len() ==> !opens_code(
                #[trigger] chars::split(before, '\n')[i],
                kind,
            ),
        opens_code(chars::split(code, '\n')[0], kind),
    ensures
        with_header(before + code, header, kind) == header + code,
{
    text_without_code_is_kept_whole(before, header, kind);
    lemma_content_start_append(before, code, kind);
    let p = chars::split(code, '\n');
    content_begins_with_code(p[0], kind);
    if code.len() == 0 {
        let d = delimiters(kind);
        let i = choose|i: int|
            0 <= i < d.len() && chars::starts_with(chars::trim_start(p[0]), #[trigger] d[i]);
        lemma_code_words(kind, i);
    }
    lemma_first_line(code);
    lemma_delimiter_line_push(p[0], kind);
    let n = first_line_len(code) as int;
    if p.len() == 1 {
        assert(code.take(n) =~= code);
    }
    assert(content_start(code, kind) == Some(0int));
    assert((before + code).skip(before.len() as int) =~= code);
}

/// A text that begins with a word that starts code of its kind is kept whole
/// behind the header.
pub proof fn code_is_kept_whole(s: Seq<char>, header: Seq<char>, kind: SourceKind)
    requires
        match kind {
            SourceKind::Kotlin => {
                ||| chars::starts_with(s, "package "@)
                ||| chars::starts_with(s, "@file:"@)
            },
            SourceKind::Kts => {
                ||| chars::starts_with(s, "@file:"@)
                ||| chars::starts_with(s, "import "@)
                ||| chars::starts_with(s, "plugins "@)
                ||| chars::starts_with(s, "buildscript "@)
                ||| chars::starts_with(s, "dependencies "@)
                ||| chars::starts_with(s, "pluginManagement"@)
                ||| chars::starts_with(s, "dependencyResolutionManagement"@)
            },
            SourceKind::Java => chars::starts_with(s, "package "@),
            SourceKind::Rust => {
                ||| chars::starts_with(s, "#!["@)
                ||| chars::starts_with(s, "//!"@)
                ||| chars::starts_with(s, "use "@)
                ||| chars::starts_with(s, "mod "@)
                ||| chars::starts_with(s, "pub "@)
                ||| chars::starts_with(s, "fn "@)
                ||| chars::starts_with(s, "impl "@)
                ||| chars::starts_with(s, "struct "@)
                ||| chars::starts_with(s, "enum "@)
                ||| chars::starts_with(s, "trait "@)
                ||| chars::starts_with(s, "const "@)
                ||| chars::starts_with(s, "static "@)
                ||| chars::starts_with(s, "type "@)
                ||| chars::starts_with(s, "macro_rules!"@)
            },
        },
    ensures
        with_header(s, header, kind) == header + s,
{
    let d = delimiters(kind);
    assert(exists|i: int| 0 <= i < d.len() && chars::starts_with(s, #[trigger] d[i])) by {
        match kind {
            SourceKind::Kotlin => {
                assert(d[0] == "package "@ && d[1] == "@file:"@);
            },
            SourceKind::Kts => {
                assert(d[0] == "@file:"@ && d[1] == "import "@ && d[2] == "plugins "@ && d[3]
                    == "buildscript "@ && d[4] == "dependencies "@ && d[5] == "pluginManagement"@
                    && d[6] == "dependencyResolutionManagement"@);
            },
            SourceKind::Java => {
                assert(d[0] == "package "@);
            },
            SourceKind::Rust => {
                assert(d[0] == "#!["@ && d[1] == "//!"@ && d[2] == "use "@ && d[3] == "mod "@
                    && d[4] == "pub "@ && d[5] == "fn "@ && d[6] == "impl "@ && d[7] == "struct "@
                    && d[8] == "enum "@ && d[9] == "trait "@ && d[10] == "const "@ && d[11]
                    == "static "@ && d[12] == "type "@ && d[13] == "macro_rules!"@);
            },
        }
    }
    let i = choose|i: int| 0 <= i < d.len() && chars::starts_with(s, #[trigger] d[i]);
    lemma_code_words(kind, i);
    let w = d[i];
    let p = chars::split(s, '\n');
    lemma_first_line(s);
    assert(s.take(w.len() as int)[0] == s[0]);
    let line = p[0];
    let n = first_line_len(s) as int;
    if p.len() > 1 {
        assert(s.take(n).len() == n);
        assert(s[n - 1] == s.take(n)[n - 1]);
        assert(s[n - 1] == '\n');
        if n <= w.len() {
            assert(w[n - 1] == s.take(w.len() as int)[n - 1]);
            assert(w[n - 1] == '\n');
            assert(w.contains('\n'));
        }
        assert(line =~= s.take(n).drop_last());
    }
    assert(line.take(w.len() as int) =~= s.take(w.len() as int));
    assert(line[0] == s[0]);
    assert(chars::trim_start(line) == line);
    assert(is_delimiter_line(line, kind));
    content_begins_with_code(line, kind);
    let none = Seq::<char>::empty();
    assert(none + s =~= s);
    assert(chars::split(none, '\n') =~= seq![none]);
    assert forall|k: int| 0 <= k < chars::split(none, '\n').len() implies !opens_code(
        #[trigger] chars::split(none, '\n')[k],
        kind,
    ) by {
        content_begins_with_code(none, kind);
        if is_delimiter_line(none, kind) {
            let j = choose|j: int|
                0 <= j < d.len() && chars::starts_with(chars::trim_start(none), #[trigger] d[j]);
            lemma_code_words(kind, j);
        }
    }
    header_stands_before_the_code(none, s, header, kind);
}

/// Sources are told apart by what follows the last dot of their names: `kt` is
/// Kotlin, `kts` a Kotlin script, `java` Java, `rs` Rust, and all else is none.
pub proof fn kinds_by_extension(path: Seq<char>)
    ensures
        kind_of_path(path) == Some(SourceKind::Kotlin) <==> fspath::suffix(path) == Some("kt"@),
        kind_of_path(path) == Some(SourceKind::Kts) <==> fspath::suffix(path) == Some("kts"@),
        kind_of_path(path) == Some(SourceKind::Java) <==> fspath::suffix(path) == Some("java"@),
        kind_of_path(path) == Some(SourceKind::Rust) <==> fspath::suffix(path) == Some("rs"@),
{
    reveal_strlit("kt");
    reveal_strlit("kts");
    reveal_strlit("java");
    reveal_strlit("rs");
    assert("kt"@[0] != "rs"@[0]);
    assert("kt"@.len() == 2 && "rs"@.len() == 2 && "kts"@.len() == 3 && "java"@.len() == 4);
}

/// A rendered header is the template up to the slot of the year, the year in
/// decimal, and the rendering of what follows; without a slot it is the
/// template, with a line feed where it ended without one.
pub proof fn rendering_puts_the_year_into_the_slot(a: Seq<char>, b: Seq<char>, year: nat)
    requires
        !a.contains('$'),
    ensures
        rendered(a + "${YEAR}"@ + b, year) == a + chars::decimal(year) + rendered(b, year),
        rendered(a, year) == if a.len() > 0 && a.last() == '\n' {
            a
        } else {
            a.push('\n')
        },
{
    reveal_strlit("${YEAR}");
    let p = year_slot();
    let y = chars::decimal(year);
    chars::lemma_decimal_value(year);
    lemma_replace_behind(a, p + b, p, y);
    assert(a + p + b =~= a + (p + b));
    assert((p + b).take(p.len() as int) =~= p);
    assert((p + b).skip(p.len() as int) =~= b);
    let rest = chars::replace(b, p, y);
    let body = chars::replace(a + p + b, p, y);
    assert(body =~= a + y + rest);
    assert(chars::is_digit(y[y.len() - 1]));
    assert(rendered(a + p + b, year) =~= a + y + rendered(b, year));
    let none = Seq::<char>::empty();
    lemma_replace_behind(a, none, p, y);
    assert(a + none =~= a);
}

proof fn lemma_replace_behind(a: Seq<char>, b: Seq<char>, p: Seq<char>, r: Seq<char>)
    requires
        p.len() > 0,
        !a.contains(p[0]),
    ensures
        chars::replace(a + b, p, r) == a + chars::replace(b, p, r),
    decreases a.len(),
{
    if a.len() == 0 {
        assert(a + b =~= b);
        assert(a + chars::replace(b, p, r) =~= chars::replace(b, p, r));
    } else {
        let s = a + b;
        assert(s[0] == a[0]);
        if chars::starts_with(s, p) {
            assert(s.take(p.len() as int)[0] == a[0]);
        }
        chars::lemma_replace_step(s, p, r);
        assert(s.skip(1) =~= a.skip(1) + b);
        assert(!a.skip(1).contains(p[0])) by {
            if a.skip(1).contains(p[0]) {
                let k = choose|k: int| 0 <= k < a.skip(1).len() && a.skip(1)[k] == p[0];
                assert(a[k + 1] == p[0]);
            }
        }
        lemma_replace_behind(a.skip(1), b, p, r);
        assert(seq![a[0]] + (a.skip(1) + chars::replace(b, p, r)) =~= a + chars::replace(b, p, r));
    }
}

/// Of the longest texts the last one is taken.
pub proof fn longest_is_the_last_of_its_length(texts: Seq<Seq<char>>) -> (k: int)
    requires
        texts.len() > 0,
    ensures
        0 <= k < texts.len(),
        longest(texts) == Some(texts[k]),
        forall|j: int|
            0 <= j < k ==> chars::byte_len(#[trigger] texts[j]) <= chars::byte_len(texts[k]),
        forall|j: int|
            k < j < texts.len() ==> chars::byte_len(#[trigger] texts[j]) < chars::byte_len(
                texts[k],
            ),
    decreases texts.len(),
{
    let init = texts.drop_last();
    if init.len() == 0 {
        0
    } else {
        let k = longest_is_the_last_of_its_length(init);
        assert(init[k] == texts[k]);
        if chars::byte_len(texts[k]) > chars::byte_len(texts.last()) {
            assert forall|j: int| k < j < texts.len() implies chars::byte_len(#[trigger] texts[j])
                < chars::byte_len(texts[k]) by {
                if j < init.len() {
                    assert(init[j] == texts[j]);
                }
            }
            assert forall|j: int| 0 <= j < k implies chars::byte_len(#[trigger] texts[j])
                <= chars::byte_len(texts[k]) by {
                assert(init[j] == texts[j]);
            }
            k
        } else {
            assert forall|j: int| 0 <= j < texts.len() - 1 implies chars::byte_len(
                #[trigger] texts[j],
            ) <= chars::byte_len(texts.last()) by {
                assert(init[j] == texts[j]);
            }
            texts.len() - 1
        }
    }
}

/// A header is known by the longest of the lines of its template, trimmed, that
/// do not hold the slot of the year and are not blank; and only where there are
/// none, by the longest of the trimmed parts around the slots.
pub proof fn marker_is_the_longest_fixed_text(template: Seq<char>)
    ensures
        ({
            let lines = chars::lines(template);
            let fixed = lines.filter(
                |l: Seq<char>| !chars::contains(l, "${YEAR}"@) && chars::trim(l).len() > 0,
            ).map_values(|l: Seq<char>| chars::trim(l));
            &&& yearless_lines(lines) == fixed
            &&& fixed.len() > 0 ==> longest(fixed) == Some(marker(template))
            &&& fixed.len() == 0 && yearless_parts(lines).len() > 0 ==> longest(
                yearless_parts(lines),
            ) == Some(marker(template))
            &&& fixed.len() == 0 && yearless_parts(lines).len() == 0 ==> marker(template).len()
                == 0
        }),
{
    let lines = chars::lines(template);
    lemma_yearless_lines(lines);
    let fixed = yearless_lines(lines);
    if fixed.len() > 0 {
        longest_is_longest(fixed, 0);
    }
    if yearless_parts(lines).len() > 0 {
        longest_is_longest(yearless_parts(lines), 0);
    }
}

proof fn lemma_yearless_lines(lines: Seq<Seq<char>>)
    ensures
        yearless_lines(lines) == lines.filter(
            |l: Seq<char>| !chars::contains(l, "${YEAR}"@) && chars::trim(l).len() > 0,
        ).map_values(|l: Seq<char>| chars::trim(l)),
    decreases lines.len(),
{
    reveal(Seq::filter);
    let f = |l: Seq<char>| !chars::contains(l, "${YEAR}"@) && chars::trim(l).len() > 0;
    let g = |l: Seq<char>| chars::trim(l);
    if lines.len() > 0 {
        lemma_yearless_lines(lines.drop_last());
        let rest = lines.drop_last().filter(f);
        assert(rest.push(lines.last()).map_values(g) =~= rest.map_values(g).push(
            chars::trim(lines.last()),
        ));
    } else {
        assert(lines.filter(f).map_values(g) =~= Seq::empty());
    }
}

/// Each trimmed part around the slots of the year that is not blank is one of
/// the parts looked at, and nothing else is.
pub proof fn marker_parts_stand_around_the_year(lines: Seq<Seq<char>>, t: Seq<char>)
    ensures
        yearless_parts(lines).contains(t) <==> t.len() > 0 && exists|i: int, k: int|
            0 <= i < lines.len() && 0 <= k < chars::split_str(lines[i], "${YEAR}"@).len()
                && chars::trim(#[trigger] chars::split_str(lines[i], "${YEAR}"@)[k]) == t,
    decreases lines.len(),
{
    let p = "${YEAR}"@;
    if lines.len() > 0 {
        let init = lines.drop_last();
        marker_parts_stand_around_the_year(init, t);
        let last = chars::split_str(lines.last(), p);
        lemma_trimmed_nonempty(last, t);
        let a = yearless_parts(init);
        let b = trimmed_nonempty(last);
        let r = yearless_parts(lines);
        assert(r == a + b);
        assert(r.contains(t) <==> a.contains(t) || b.contains(t)) by {
            if a.contains(t) {
                let i = choose|i: int| 0 <= i < a.len() && a[i] == t;
                assert(r[i] == t);
            }
            if b.contains(t) {
                let i = choose|i: int| 0 <= i < b.len() && b[i] == t;
                assert(r[a.len() + i] == t);
            }
        }
        if a.contains(t) {
            let (i, k) = choose|i: int, k: int|
                0 <= i < init.len() && 0 <= k < chars::split_str(init[i], p).len() && chars::trim(
                    #[trigger] chars::split_str(init[i], p)[k],
                ) == t;
            assert(chars::trim(chars::split_str(lines[i], p)[k]) == t);
        }
        if b.contains(t) {
            let k = choose|k: int| 0 <= k < last.len() && chars::trim(#[trigger] last[k]) == t;
            assert(chars::trim(chars::split_str(lines[lines.len() - 1], p)[k]) == t);
        }
        if t.len() > 0 && exists|i: int, k: int|
            0 <= i < lines.len() && 0 <= k < chars::split_str(lines[i], p).len() && chars::trim(
                #[trigger] chars::split_str(lines[i], p)[k],
            ) == t {
            let (i, k) = choose|i: int, k: int|
                0 <= i < lines.len() && 0 <= k < chars::split_str(lines[i], p).len() && chars::trim(
                    #[trigger] chars::split_str(lines[i], p)[k],
                ) == t;
            if i < init.len() {
                assert(chars::trim(chars::split_str(init[i], p)[k]) == t);
            } else {
                assert(chars::trim(last[k]) == t);
            }
        }
    }
}

proof fn lemma_trimmed_nonempty(pieces: Seq<Seq<char>>, t: Seq<char>)
    ensures
        trimmed_nonempty(pieces).contains(t) <==> t.len() > 0 && exists|k: int|
            0 <= k < pieces.len() && chars::trim(#[trigger] pieces[k]) == t,
    decreases pieces.len(),
{
    if pieces.len() > 0 {
        let init = pieces.drop_last();
        lemma_trimmed_nonempty(init, t);
        let rest = trimmed_nonempty(init);
        let r = trimmed_nonempty(pieces);
        let x = chars::trim(pieces.last());
        assert(r.contains(t) <==> rest.contains(t) || (x.len() > 0 && x == t)) by {
            if rest.contains(t) {
                let i = choose|i: int| 0 <= i < rest.len() && rest[i] == t;
                assert(r[i] == t);
            }
            if x.len() > 0 && x == t {
                assert(r[r.len() - 1] == t);
            }
        }
        if rest.contains(t) {
            let k = choose|k: int| 0 <= k < init.len() && chars::trim(#[trigger] init[k]) == t;
            assert(chars::trim(pieces[k]) == t);
        }
        if x.len() > 0 && x == t {
            assert(chars::trim(pieces[pieces.len() - 1]) == t);
        }
        if t.len() > 0 && exists|k: int|
            0 <= k < pieces.len() && chars::trim(#[trigger] pieces[k]) == t {
            let k = choose|k: int| 0 <= k < pieces.len() && chars::trim(#[trigger] pieces[k]) == t;
            if k < init.len() {
                assert(chars::trim(init[k]) == t);
            }
        }
    }
}

/// A header is looked for in the first ten lines: text behind them makes no
/// difference, and no marker is no header.
pub proof fn headers_are_looked_for_in_ten_lines(s: Seq<char>, m: Seq<char>)
    ensures
        marked(s, Seq::empty()) == false,
        m.len() > 0 ==> (marked(s, m) <==> exists|i: int|
            0 <= i < chars::lines(s).len() && i < 10 && chars::contains(
                #[trigger] chars::lines(s)[i],
                m,
            )),
{
}

} // verus!
