//! The text files that a configuration points to, as they were read.

use crate::chars;
use crate::text;
use vstd::prelude::*;

verus! {

/// What reading a file gave.
#[derive(Debug, PartialEq, Eq)]
pub enum FileState {
    /// There is no such file.
    Missing,
    /// The file could not be read as text; with the reason.
    Unreadable(String),
    /// The text of the file.
    Text(String),
}

/// What reading a file gave.
pub enum Reading {
    Missing,
    /// With the reason.
    Unreadable(Seq<char>),
    Text(Seq<char>),
}

impl Reading {
    /// The reason why there is no text; nothing where there is.
    pub open spec fn reason(self) -> Seq<char> {
        match self {
            Reading::Missing => "No such file or directory (os error 2)"@,
            Reading::Unreadable(cause) => cause,
            Reading::Text(_) => Seq::empty(),
        }
    }
}

impl FileState {
    pub open spec fn reading(self) -> Reading {
        match self {
            FileState::Missing => Reading::Missing,
            FileState::Unreadable(cause) => Reading::Unreadable(cause@),
            FileState::Text(t) => Reading::Text(t@),
        }
    }
}

/// What reading each of a number of files gave. A file that is not listed counts
/// as missing.
pub struct FileTexts {
    entries: Vec<(String, FileState)>,
}

spec fn last_entry(entries: Seq<(String, FileState)>, path: Seq<char>) -> Reading
    decreases entries.len(),
{
    if entries.len() == 0 {
        Reading::Missing
    } else if entries.last().0@ == path {
        entries.last().1.reading()
    } else {
        last_entry(entries.drop_last(), path)
    }
}

impl FileTexts {
    /// What reading the file at `path` gave.
    pub closed spec fn at(&self, path: Seq<char>) -> Reading {
        last_entry(self.entries@, path)
    }

    /// A list without files.
    pub fn new() -> (r: Self)
        ensures
            forall|p: Seq<char>| #[trigger] r.at(p) == Reading::Missing,
    {
        FileTexts { entries: Vec::new() }
    }

    /// Notes what reading a file gave, in place of what was known of it.
    pub fn note(&mut self, path: String, state: FileState)
        ensures
            forall|p: Seq<char>| #[trigger]
                final(self).at(p) == if p == path@ {
                    state.reading()
                } else {
                    old(self).at(p)
                },
    {
        let ghost before = self.entries@;
        self.entries.push((path, state));
        assert(self.entries@.drop_last() =~= before);
    }

    /// What reading the file at `path` gave.
    pub fn get(&self, path: &str) -> (r: FileState)
        ensures
            r.reading() == self.at(path@),
    {
        let mut i: usize = self.entries.len();
        assert(self.entries@.take(i as int) =~= self.entries@);
        while i > 0
            invariant
                i <= self.entries.len(),
                last_entry(self.entries@.take(i as int), path@) == self.at(path@),
            decreases i,
        {
            i -= 1;
            assert(self.entries@.take(i + 1).drop_last() =~= self.entries@.take(i as int));
            if text::same(&self.entries[i].0, path) {
                return match &self.entries[i].1 {
                    FileState::Missing => FileState::Missing,
                    FileState::Unreadable(cause) => FileState::Unreadable(cause.clone()),
                    FileState::Text(t) => FileState::Text(t.clone()),
                };
            }
        }
        FileState::Missing
    }
}

/// The reason why a file has no text; nothing where it has.
pub fn why_no_text(state: &FileState) -> (r: String)
    ensures
        r@ == state.reading().reason(),
{
    match state {
        FileState::Missing => "No such file or directory (os error 2)".to_owned(),
        FileState::Unreadable(cause) => cause.clone(),
        FileState::Text(_) => String::new(),
    }
}

/// The lines that say something: trimmed, not empty, not begun with `#`.
pub open spec fn entry_lines(lines: Seq<Seq<char>>) -> Seq<Seq<char>>
    decreases lines.len(),
{
    if lines.len() == 0 {
        Seq::empty()
    } else {
        let rest = entry_lines(lines.drop_last());
        let t = chars::trim(lines.last());
        if t.len() > 0 && t[0] != '#' {
            rest.push(t)
        } else {
            rest
        }
    }
}

/// The entries of a list file: one per line, blank lines and `#` comments aside.
pub fn list_entries(contents: &str) -> (r: Vec<String>)
    ensures
        chars::views(r@) == entry_lines(chars::lines(contents@)),
{
    let lines = text::lines(contents);
    let ghost all = chars::lines(contents@);
    let mut r: Vec<String> = Vec::new();
    let mut i: usize = 0;
    assert(chars::views(r@) =~= Seq::empty());
    while i < lines.len()
        invariant
            i <= lines.len(),
            all == chars::views(lines@),
            chars::views(r@) == entry_lines(all.take(i as int)),
        decreases lines.len() - i,
    {
        let ghost before = chars::views(r@);
        assert(all.take(i + 1).drop_last() =~= all.take(i as int));
        assert(all[i as int] == lines@[i as int]@);
        let t = text::trim(&lines[i]);
        let v = text::chars_of(&t);
        if v.len() > 0 && v[0] != '#' {
            r.push(t);
            assert(chars::views(r@) =~= before.push(t@));
        }
        i += 1;
    }
    assert(all.take(i as int) =~= all);
    r
}

/// The entries of a list file are its lines, trimmed, but for blank ones and
/// those that begin with `#`, in order.
pub proof fn entries_are_trimmed_lines(lines: Seq<Seq<char>>)
    ensures
        entry_lines(lines) == lines.map_values(|l: Seq<char>| chars::trim(l)).filter(
            |l: Seq<char>| l.len() > 0 && l[0] != '#',
        ),
    decreases lines.len(),
{
    reveal(Seq::filter);
    let m = lines.map_values(|l: Seq<char>| chars::trim(l));
    if lines.len() > 0 {
        entries_are_trimmed_lines(lines.drop_last());
        assert(m.drop_last() =~= lines.drop_last().map_values(|l: Seq<char>| chars::trim(l)));
    }
}

} // verus!
