//! The command line of Gradle Dependencies Sorter, and what its runs mean.
//!
//! A check sorts copies of the files in a scratch directory: what differs
//! afterwards is what a run would change.

use crate::chars;
use crate::formatters;
use crate::formatters::ToolError;
use crate::formatters::ToolOutput;
use crate::formatters::MAX_ARG_BYTES;
use crate::fspath;
use crate::fspath::PathSet;
use crate::text;
use vstd::prelude::*;

verus! {

/// The tool's name in messages.
pub const TOOL: &'static str = "Gradle Dependencies Sorter";

/// What a run came to.
pub struct RunOutcome {
    /// The files that were changed, or would be.
    pub changed: PathSet,
    /// What the tool complained of.
    pub errors: String,
}

impl Default for RunOutcome {
    fn default() -> (r: Self)
        ensures
            r.changed@ == Seq::<Seq<char>>::empty(),
            r.errors@.len() == 0,
    {
        RunOutcome { changed: PathSet::new(), errors: String::new() }
    }
}

/// The arguments before the files.
pub open spec fn options(insert_blank_lines: bool) -> Seq<Seq<char>> {
    if insert_blank_lines {
        Seq::empty()
    } else {
        seq!["--no-blank-lines"@]
    }
}

/// The arguments before the files.
pub fn args(insert_blank_lines: bool) -> (r: Vec<String>)
    ensures
        chars::views(r@) == options(insert_blank_lines),
{
    let mut r: Vec<String> = Vec::new();
    if !insert_blank_lines {
        r.push("--no-blank-lines".to_owned());
    }
    assert(chars::views(r@) =~= options(insert_blank_lines));
    r
}

/// The arguments of each invocation for the files below a directory.
pub fn plan(insert_blank_lines: bool, dir: &str, files: &Vec<String>) -> (r: Vec<Vec<String>>)
    ensures
        formatters::lists_view(r@) == formatters::invocations(
            options(insert_blank_lines),
            formatters::chunked(
                fspath::below(dir@, chars::views(files@)),
                formatters::file_budget(options(insert_blank_lines), MAX_ARG_BYTES as nat),
            ),
        ),
{
    let absolute = fspath::join_all(dir, files);
    formatters::batched_invocations(&args(insert_blank_lines), &absolute, MAX_ARG_BYTES)
}

/// What a finished invocation complained of: its output, or at least the exit
/// code.
pub open spec fn complaint(output: ToolOutput) -> Option<Seq<char>> {
    let details = formatters::details_of(
        output.stdout@,
        formatters::diagnostics(output.stderr@),
    );
    if output.success {
        None
    } else if details.len() == 0 {
        Some("exit "@ + formatters::exit_text(output.code))
    } else {
        Some(details)
    }
}

/// The complaints of the invocations, in their order.
pub open spec fn complaints(outputs: Seq<ToolOutput>) -> Seq<Seq<char>>
    decreases outputs.len(),
{
    if outputs.len() == 0 {
        Seq::empty()
    } else {
        let rest = complaints(outputs.drop_last());
        match complaint(outputs.last()) {
            Some(c) => rest.push(c),
            None => rest,
        }
    }
}

/// The complaints of the invocations, a line apart.
pub open spec fn all_complaints(outputs: Seq<ToolOutput>) -> Seq<char> {
    chars::join(complaints(outputs), "\n"@)
}

/// Collects the complaints of the invocations, a line apart.
pub fn collect_errors(outputs: &Vec<ToolOutput>) -> (r: String)
    ensures
        r@ == all_complaints(outputs@),
{
    let mut errors: Vec<String> = Vec::new();
    let mut i: usize = 0;
    assert(chars::views(errors@) =~= complaints(outputs@.take(0)));
    while i < outputs.len()
        invariant
            i <= outputs.len(),
            chars::views(errors@) == complaints(outputs@.take(i as int)),
        decreases outputs.len() - i,
    {
        let ghost before = chars::views(errors@);
        let output = &outputs[i];
        assert(outputs@.take(i + 1).drop_last() =~= outputs@.take(i as int));
        if !output.success {
            let stderr = formatters::filter_jvm_noise(&output.stderr);
            let details = formatters::output_details(&output.stdout, &stderr);
            let error = if details.as_str().is_empty() {
                text::cat2("exit ", &formatters::exit_code(output.code))
            } else {
                details
            };
            let ghost e = error@;
            errors.push(error);
            assert(chars::views(errors@) =~= before.push(e));
        }
        i += 1;
    }
    assert(outputs@.take(i as int) =~= outputs@);
    text::join(&errors, "\n")
}

/// The files whose contents differ, in order.
pub open spec fn differing(
    files: Seq<Seq<char>>,
    before: Seq<Seq<u8>>,
    after: Seq<Seq<u8>>,
) -> Seq<Seq<char>>
    recommends
        files.len() == before.len() == after.len(),
    decreases files.len(),
{
    if files.len() == 0 {
        Seq::empty()
    } else {
        let rest = differing(files.drop_last(), before.drop_last(), after.drop_last());
        if before.last() != after.last() {
            fspath::inserted(rest, files.last())
        } else {
            rest
        }
    }
}

/// The contents of files as sequences.
pub open spec fn bytes_views(v: Seq<Vec<u8>>) -> Seq<Seq<u8>> {
    v.map_values(|b: Vec<u8>| b@)
}

/// Finds the files whose contents differ.
pub fn compare_files(files: &Vec<String>, before: &Vec<Vec<u8>>, after: &Vec<Vec<u8>>) -> (r:
    PathSet)
    requires
        files@.len() == before@.len() == after@.len(),
    ensures
        r@ == differing(chars::views(files@), bytes_views(before@), bytes_views(after@)),
{
    let ghost all = chars::views(files@);
    let ghost b = bytes_views(before@);
    let ghost a = bytes_views(after@);
    let mut changed = PathSet::new();
    let mut i: usize = 0;
    while i < files.len()
        invariant
            i <= files.len(),
            files@.len() == before@.len() == after@.len(),
            all == chars::views(files@),
            b == bytes_views(before@),
            a == bytes_views(after@),
            changed@ == differing(all.take(i as int), b.take(i as int), a.take(i as int)),
        decreases files.len() - i,
    {
        assert(all.take(i + 1).drop_last() =~= all.take(i as int));
        assert(b.take(i + 1).drop_last() =~= b.take(i as int));
        assert(a.take(i + 1).drop_last() =~= a.take(i as int));
        assert(all[i as int] == files@[i as int]@);
        assert(b[i as int] == before@[i as int]@);
        assert(a[i as int] == after@[i as int]@);
        if !text::same_bytes(&before[i], &after[i]) {
            changed.insert(&files[i]);
        }
        i += 1;
    }
    assert(all.take(i as int) =~= all);
    assert(b.take(i as int) =~= b);
    assert(a.take(i as int) =~= a);
    changed
}

/// What a run came to. `outputs` are the finished invocations (see [`plan`]), in
/// the repository or, for a check, in the scratch directory with the copies;
/// `before` and `after` are the contents of the files there. A check tells of
/// complaints as if they were about the repository; without a check they are an
/// error.
pub fn run(
    files: &Vec<String>,
    check: bool,
    outputs: &Vec<ToolOutput>,
    before: &Vec<Vec<u8>>,
    after: &Vec<Vec<u8>>,
    scratch: &str,
    repo_root: &str,
) -> (r: Result<RunOutcome, ToolError>)
    requires
        files@.len() == before@.len() == after@.len(),
    ensures
        ({
            let errors = all_complaints(outputs@);
            let changed = differing(chars::views(files@), bytes_views(before@), bytes_views(after@));
            if files@.len() == 0 {
                r matches Ok(o) && o.changed@.len() == 0 && o.errors@.len() == 0
            } else if check {
                r matches Ok(o) && o.changed@ == changed && o.errors@ == chars::replace(
                    errors,
                    scratch@,
                    repo_root@,
                )
            } else if errors.len() > 0 {
                r matches Err(e) && e.message@ == TOOL@ + " failed:\n"@ + errors
            } else {
                r matches Ok(o) && o.changed@ == changed && o.errors@.len() == 0
            }
        }),
{
    if files.len() == 0 {
        return Ok(RunOutcome::default());
    }
    let errors = collect_errors(outputs);
    if check {
        return Ok(
            RunOutcome {
                changed: compare_files(files, before, after),
                errors: text::replace(&errors, scratch, repo_root),
            },
        );
    }
    if !errors.as_str().is_empty() {
        return Err(ToolError { message: text::cat3(TOOL, " failed:\n", &errors) });
    }
    Ok(RunOutcome { changed: compare_files(files, before, after), errors: String::new() })
}

/// Contents that belong to the path `q` differ.
pub open spec fn path_differs(
    files: Seq<Seq<char>>,
    before: Seq<Seq<u8>>,
    after: Seq<Seq<u8>>,
    q: Seq<char>,
) -> bool {
    exists|i: int|
        0 <= i < files.len() && before[i] != after[i] && fspath::parts(#[trigger] files[i])
            == fspath::parts(q)
}

/// The reported files are in order, and a path is reported exactly where its
/// contents differ.
pub proof fn differing_files_are_reported(
    files: Seq<Seq<char>>,
    before: Seq<Seq<u8>>,
    after: Seq<Seq<u8>>,
    q: Seq<char>,
)
    requires
        files.len() == before.len() == after.len(),
    ensures
        fspath::increasing(differing(files, before, after)),
        fspath::holds_path(differing(files, before, after), q) == path_differs(
            files,
            before,
            after,
            q,
        ),
    decreases files.len(),
{
    if files.len() > 0 {
        let (f, b, a) = (files.drop_last(), before.drop_last(), after.drop_last());
        differing_files_are_reported(f, b, a, q);
        let rest = differing(f, b, a);
        fspath::inserting_keeps_order(rest, files.last());
        if path_differs(f, b, a, q) {
            let i = choose|i: int|
                0 <= i < f.len() && b[i] != a[i] && fspath::parts(#[trigger] f[i])
                    == fspath::parts(q);
            assert(files[i] == f[i]);
        }
        if path_differs(files, before, after, q) {
            let i = choose|i: int|
                0 <= i < files.len() && before[i] != after[i] && fspath::parts(#[trigger] files[i])
                    == fspath::parts(q);
            if i < f.len() {
                assert(files[i] == f[i]);
            }
        }
        assert(files.last() == files[files.len() - 1]);
        assert(fspath::holds_path(fspath::inserted(rest, files.last()), q) == (fspath::parts(q)
            == fspath::parts(files.last()) || fspath::holds_path(rest, q)));
    }
}

/// Blank lines are inserted unless the sorter is told not to.
pub proof fn blank_lines_by_option()
    ensures
        options(true).len() == 0,
        options(false) == seq!["--no-blank-lines"@],
{
}

/// Every invocation that failed is reported, by what it printed or, where it
/// printed nothing, by its exit code; one that went well is not.
pub proof fn failed_invocations_are_reported(outputs: Seq<ToolOutput>, o: ToolOutput)
    ensures
        o.success <==> complaint(o) is None,
        complaint(o) matches Some(c) ==> c.len() > 0,
        complaint(o) matches Some(c) ==> {
            let details = formatters::merged_text(
                chars::trim(o.stdout@),
                chars::trim(formatters::diagnostics(o.stderr@)),
            );
            c == if details.len() > 0 {
                details
            } else {
                "exit "@ + formatters::exit_text(o.code)
            }
        },
        complaints(outputs) == outputs.filter(|x: ToolOutput| !x.success).map_values(
            |x: ToolOutput| complaint(x)->0,
        ),
    decreases outputs.len(),
{
    reveal(Seq::filter);
    reveal_strlit("exit ");
    let f = |x: ToolOutput| !x.success;
    let g = |x: ToolOutput| complaint(x)->0;
    if outputs.len() > 0 {
        let t = outputs.drop_last();
        failed_invocations_are_reported(t, o);
        let rest = t.filter(f);
        assert(rest.push(outputs.last()).map_values(g) =~= rest.map_values(g).push(
            g(outputs.last()),
        ));
    } else {
        assert(outputs.filter(f).map_values(g) =~= Seq::empty());
    }
}

/// The complaints of several invocations stand a line feed apart.
pub proof fn complaints_stand_on_lines(outputs: Seq<ToolOutput>, o: ToolOutput)
    ensures
        all_complaints(Seq::empty()) == Seq::<char>::empty(),
        o.success ==> all_complaints(outputs.push(o)) == all_complaints(outputs),
        !o.success && complaints(outputs).len() > 0 ==> all_complaints(outputs.push(o))
            == all_complaints(outputs) + seq!['\n'] + complaint(o)->0,
        !o.success && complaints(outputs).len() == 0 ==> all_complaints(outputs.push(o))
            == complaint(o)->0,
{
    reveal_strlit("\n");
    assert("\n"@ =~= seq!['\n']);
    let all = outputs.push(o);
    assert(all.drop_last() =~= outputs);
    assert(all.last() == o);
    let rest = complaints(outputs);
    if !o.success {
        let c = complaint(o)->0;
        assert(complaints(all) == rest.push(c));
        assert(rest.push(c).drop_last() =~= rest);
    }
}

} // verus!
