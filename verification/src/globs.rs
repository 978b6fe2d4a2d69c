//! Sets of glob patterns, as the `globset` crate reads and matches them.
//!
//! Which texts are patterns, and which paths a pattern accepts, is for that
//! crate to say: [`glob_parses`], [`globs_compile`] and [`glob_accepts`] name
//! its answers. They are those of a platform on which `/` is the only
//! separator and `\` escapes.

use crate::chars;
use vstd::prelude::*;

verus! {

#[verifier::external_type_specification]
#[verifier::external_body]
pub struct ExGlobSet(globset::GlobSet);

#[verifier::external_type_specification]
#[verifier::external_body]
pub struct ExGlobSetBuilder(globset::GlobSetBuilder);

#[verifier::external_type_specification]
#[verifier::external_body]
pub struct ExGlobError(globset::Error);

/// `globset::Glob::new` takes the text as a pattern.
pub uninterp spec fn glob_parses(pattern: Seq<char>) -> bool;

/// `globset::GlobSetBuilder::build` makes a set of the patterns.
pub uninterp spec fn globs_compile(patterns: Seq<Seq<char>>) -> bool;

/// `globset::GlobSet::is_match`, on a set of this one pattern, accepts the path.
pub uninterp spec fn glob_accepts(pattern: Seq<char>, path: Seq<char>) -> bool;

/// The patterns that a builder has been given, in order.
pub uninterp spec fn builder_patterns(builder: globset::GlobSetBuilder) -> Seq<Seq<char>>;

/// The patterns of a set, in order.
pub uninterp spec fn set_patterns(set: globset::GlobSet) -> Seq<Seq<char>>;

/// One of the patterns accepts the path.
pub open spec fn any_accepts(patterns: Seq<Seq<char>>, path: Seq<char>) -> bool {
    exists|i: int| 0 <= i < patterns.len() && glob_accepts(#[trigger] patterns[i], path)
}

/// Each of the first `n` texts is a pattern.
pub open spec fn parse_up_to(patterns: Seq<Seq<char>>, n: int) -> bool {
    forall|i: int| 0 <= i < n ==> glob_parses(#[trigger] patterns[i])
}

/// The texts are patterns that make a set.
pub open spec fn well_formed(patterns: Seq<Seq<char>>) -> bool {
    parse_up_to(patterns, patterns.len() as int) && globs_compile(patterns)
}

/// `globset::GlobSetBuilder::new` starts without patterns.
#[verifier::external_body]
fn new_builder() -> (r: globset::GlobSetBuilder)
    ensures
        builder_patterns(r) == Seq::<Seq<char>>::empty(),
{
    globset::GlobSetBuilder::new()
}

/// `globset::Glob::new` and, where it takes the pattern, `GlobSetBuilder::add`,
/// which puts it behind those already there.
#[verifier::external_body]
fn add_pattern(builder: &mut globset::GlobSetBuilder, pattern: &str) -> (r: Result<
    (),
    globset::Error,
>)
    ensures
        match r {
            Ok(_) => glob_parses(pattern@) && builder_patterns(*final(builder))
                == builder_patterns(*old(builder)).push(pattern@),
            Err(_) => !glob_parses(pattern@) && builder_patterns(*final(builder))
                == builder_patterns(*old(builder)),
        },
{
    let glob = globset::Glob::new(pattern)?;
    builder.add(glob);
    Ok(())
}

/// `globset::GlobSetBuilder::build` makes a set of exactly the patterns given,
/// or fails on them; it never fails on none.
#[verifier::external_body]
fn build_set(builder: &globset::GlobSetBuilder) -> (r: Result<globset::GlobSet, globset::Error>)
    ensures
        match r {
            Ok(set) => globs_compile(builder_patterns(*builder)) && set_patterns(set)
                == builder_patterns(*builder),
            Err(_) => !globs_compile(builder_patterns(*builder)),
        },
        builder_patterns(*builder).len() == 0 ==> r is Ok,
{
    builder.build()
}

/// `globset::GlobSet::is_match` accepts a path where one of the patterns does.
#[verifier::external_body]
pub(crate) fn is_match(set: &globset::GlobSet, path: &str) -> (r: bool)
    ensures
        r == (exists|i: int|
            0 <= i < set_patterns(*set).len() && glob_accepts(
                #[trigger] set_patterns(*set)[i],
                path@,
            )),
{
    set.is_match(path)
}

/// Why no set could be made.
#[derive(Debug, PartialEq, Eq)]
pub enum GlobError {
    /// A text that is no pattern.
    BadPattern { pattern: String, cause: String },
    /// Patterns that do not make a set together.
    NotBuilt { cause: String },
}

impl GlobError {
    /// The error is the one that these patterns give.
    pub open spec fn is_for(self, patterns: Seq<Seq<char>>) -> bool {
        match self {
            GlobError::BadPattern { pattern, .. } => exists|i: int|
                0 <= i < patterns.len() && pattern@ == #[trigger] patterns[i] && !glob_parses(
                    patterns[i],
                ) && parse_up_to(patterns, i),
            GlobError::NotBuilt { .. } => parse_up_to(patterns, patterns.len() as int)
                && !globs_compile(patterns),
        }
    }

    /// What the error says, with the words of the `globset` crate at the end.
    pub open spec fn text(self) -> Seq<char> {
        match self {
            GlobError::BadPattern { pattern, cause } => "bad glob pattern: "@ + pattern@ + ": "@
                + cause@,
            GlobError::NotBuilt { cause } => "failed to build globset: "@ + cause@,
        }
    }

    /// What the error says, with the words of the `globset` crate at the end.
    pub fn message(&self) -> (r: String)
        ensures
            r@ == self.text(),
    {
        match self {
            GlobError::BadPattern { pattern, cause } => {
                let mut s = "bad glob pattern: ".to_owned();
                s.push_str(pattern);
                s.push_str(": ");
                s.push_str(cause);
                s
            },
            GlobError::NotBuilt { cause } => {
                let mut s = "failed to build globset: ".to_owned();
                s.push_str(cause);
                s
            },
        }
    }
}

/// Makes a set of the patterns.
pub fn compile(patterns: &Vec<String>) -> (r: Result<globset::GlobSet, GlobError>)
    ensures
        match r {
            Ok(set) => well_formed(chars::views(patterns@)) && set_patterns(set) == chars::views(
                patterns@,
            ),
            Err(e) => !well_formed(chars::views(patterns@)) && e.is_for(chars::views(patterns@)),
        },
        patterns@.len() == 0 ==> r is Ok,
{
    let ghost all = chars::views(patterns@);
    let mut builder = new_builder();
    let mut i: usize = 0;
    while i < patterns.len()
        invariant
            i <= patterns.len(),
            all == chars::views(patterns@),
            builder_patterns(builder) =~= all.take(i as int),
            parse_up_to(all, i as int),
        decreases patterns.len() - i,
    {
        assert(all[i as int] == patterns@[i as int]@);
        match add_pattern(&mut builder, &patterns[i]) {
            Ok(_) => {},
            Err(e) => {
                return Err(
                    GlobError::BadPattern { pattern: patterns[i].clone(), cause: e.to_string() },
                );
            },
        }
        i += 1;
    }
    assert(all.take(i as int) =~= all);
    match build_set(&builder) {
        Ok(set) => Ok(set),
        Err(e) => Err(GlobError::NotBuilt { cause: e.to_string() }),
    }
}

} // verus!
