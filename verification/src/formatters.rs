//! The command lines of ktfmt and google-java-format, and what their output
//! means.
//!
//! Long file lists are split over several invocations ([`batched_invocations`],
//! for ktfmt) or passed in a file named with `@` ([`argfile_invocation`], for
//! google-java-format).

use crate::chars;
use crate::config::GjfStyle;
use crate::config::KtfmtStyle;
use crate::text;
use vstd::prelude::*;

verus! {

/// How a formatter is started.
#[derive(Debug, PartialEq, Eq)]
pub enum Invoker {
    /// As a jar, on the JVM.
    Jar(String),
    /// As a program of its own.
    Native(String),
}

/// What a finished process left behind.
#[derive(Debug, PartialEq, Eq)]
pub struct ToolOutput {
    pub success: bool,
    /// The exit code; none where a signal ended the process.
    pub code: Option<i32>,
    pub stdout: String,
    pub stderr: String,
}

/// A failed tool, in words.
#[derive(Debug, PartialEq, Eq)]
pub struct ToolError {
    pub message: String,
}

/// Bytes of file names that one invocation may have on its command line.
pub const MAX_ARG_BYTES: usize = 102_400;

/// Options of the JVM that formatters run on.
pub open spec fn jvm_options() -> Seq<Seq<char>> {
    seq![
        "-Xmx512m"@,
        "--add-opens=java.base/java.lang=ALL-UNNAMED"@,
        "--add-opens=java.base/java.util=ALL-UNNAMED"@,
        "--add-opens=jdk.compiler/com.sun.tools.javac.api=ALL-UNNAMED"@,
        "--add-opens=jdk.compiler/com.sun.tools.javac.comp=ALL-UNNAMED"@,
        "--add-opens=jdk.compiler/com.sun.tools.javac.file=ALL-UNNAMED"@,
        "--add-opens=jdk.compiler/com.sun.tools.javac.jvm=ALL-UNNAMED"@,
        "--add-opens=jdk.compiler/com.sun.tools.javac.main=ALL-UNNAMED"@,
        "--add-opens=jdk.compiler/com.sun.tools.javac.model=ALL-UNNAMED"@,
        "--add-opens=jdk.compiler/com.sun.tools.javac.parser=ALL-UNNAMED"@,
        "--add-opens=jdk.compiler/com.sun.tools.javac.processing=ALL-UNNAMED"@,
        "--add-opens=jdk.compiler/com.sun.tools.javac.tree=ALL-UNNAMED"@,
        "--add-opens=jdk.compiler/com.sun.tools.javac.util=ALL-UNNAMED"@,
    ]
}

/// Options of the JVM that formatters run on.
pub fn jvm_flags() -> (r: Vec<String>)
    ensures
        chars::views(r@) == jvm_options(),
{
    let mut r: Vec<String> = Vec::new();
    r.push("-Xmx512m".to_owned());
    r.push("--add-opens=java.base/java.lang=ALL-UNNAMED".to_owned());
    r.push("--add-opens=java.base/java.util=ALL-UNNAMED".to_owned());
    r.push("--add-opens=jdk.compiler/com.sun.tools.javac.api=ALL-UNNAMED".to_owned());
    r.push("--add-opens=jdk.compiler/com.sun.tools.javac.comp=ALL-UNNAMED".to_owned());
    r.push("--add-opens=jdk.compiler/com.sun.tools.javac.file=ALL-UNNAMED".to_owned());
    r.push("--add-opens=jdk.compiler/com.sun.tools.javac.jvm=ALL-UNNAMED".to_owned());
    r.push("--add-opens=jdk.compiler/com.sun.tools.javac.main=ALL-UNNAMED".to_owned());
    r.push("--add-opens=jdk.compiler/com.sun.tools.javac.model=ALL-UNNAMED".to_owned());
    r.push("--add-opens=jdk.compiler/com.sun.tools.javac.parser=ALL-UNNAMED".to_owned());
    r.push("--add-opens=jdk.compiler/com.sun.tools.javac.processing=ALL-UNNAMED".to_owned());
    r.push("--add-opens=jdk.compiler/com.sun.tools.javac.tree=ALL-UNNAMED".to_owned());
    r.push("--add-opens=jdk.compiler/com.sun.tools.javac.util=ALL-UNNAMED".to_owned());
    assert(chars::views(r@) =~= jvm_options());
    r
}

/// The words that start a formatter: the program and what stands before the
/// formatter's own arguments. `java` is where the JVM was found. Nothing where
/// it is needed and was not.
pub open spec fn command_prefix(invoker: Invoker, java: Option<Seq<char>>) -> Option<
    Seq<Seq<char>>,
> {
    match invoker {
        Invoker::Jar(jar) => match java {
            Some(j) => Some(seq![j] + jvm_options() + seq!["-jar"@, jar@]),
            None => None,
        },
        Invoker::Native(bin) => Some(seq![bin@]),
    }
}

/// The words that start a formatter: the program and what stands before the
/// formatter's own arguments.
pub fn build_command(invoker: &Invoker, java: Option<String>) -> (r: Result<
    Vec<String>,
    ToolError,
>)
    ensures
        match r {
            Ok(v) => command_prefix(*invoker, chars::opt_view(java)) == Some(chars::views(v@)),
            Err(e) => command_prefix(*invoker, chars::opt_view(java)) is None && e.message@
                == "`java` not found on PATH (set JAVA_HOME or install a JDK)"@,
        },
{
    match invoker {
        Invoker::Jar(jar) => match java {
            Some(j) => {
                let mut v: Vec<String> = Vec::new();
                let ghost jv = j@;
                v.push(j);
                assert(chars::views(v@) =~= seq![jv]);
                let flags = jvm_flags();
                text::append(&mut v, &flags);
                let ghost sofar = chars::views(v@);
                v.push("-jar".to_owned());
                v.push(jar.clone());
                assert(chars::views(v@) =~= sofar + seq!["-jar"@, jar@]);
                Ok(v)
            },
            None => Err(
                ToolError {
                    message: "`java` not found on PATH (set JAVA_HOME or install a JDK)".to_owned(),
                },
            ),
        },
        Invoker::Native(bin) => {
            let mut v: Vec<String> = Vec::new();
            v.push(bin.clone());
            assert(chars::views(v@) =~= seq![bin@]);
            Ok(v)
        },
    }
}

/// The arguments of ktfmt before the files.
pub open spec fn ktfmt_options(style: KtfmtStyle, check: bool) -> Seq<Seq<char>> {
    let base = seq![
        match style {
            KtfmtStyle::Google => "--google-style"@,
            KtfmtStyle::Kotlinlang => "--kotlinlang-style"@,
            KtfmtStyle::Meta => "--meta-style"@,
        },
        "--quiet"@,
    ];
    if check {
        base + seq!["--dry-run"@, "--set-exit-if-changed"@]
    } else {
        base
    }
}

/// The arguments of ktfmt before the files.
pub fn ktfmt_args(style: KtfmtStyle, check: bool) -> (r: Vec<String>)
    ensures
        chars::views(r@) == ktfmt_options(style, check),
{
    let mut r: Vec<String> = Vec::new();
    r.push(
        match style {
            KtfmtStyle::Google => "--google-style".to_owned(),
            KtfmtStyle::Kotlinlang => "--kotlinlang-style".to_owned(),
            KtfmtStyle::Meta => "--meta-style".to_owned(),
        },
    );
    r.push("--quiet".to_owned());
    if check {
        r.push("--dry-run".to_owned());
        r.push("--set-exit-if-changed".to_owned());
    }
    assert(chars::views(r@) =~= ktfmt_options(style, check));
    r
}

/// The arguments of google-java-format before the files.
pub open spec fn gjf_options(style: GjfStyle, check: bool) -> Seq<Seq<char>> {
    (match style {
        GjfStyle::Aosp => seq!["--aosp"@],
        GjfStyle::Google => Seq::<Seq<char>>::empty(),
    }) + (if check {
        seq!["--dry-run"@, "--set-exit-if-changed"@]
    } else {
        seq!["--replace"@]
    })
}

/// The arguments of google-java-format before the files.
pub fn gjf_args(style: GjfStyle, check: bool) -> (r: Vec<String>)
    ensures
        chars::views(r@) == gjf_options(style, check),
{
    let mut r: Vec<String> = Vec::new();
    match style {
        GjfStyle::Aosp => {
            r.push("--aosp".to_owned());
        },
        GjfStyle::Google => {},
    }
    if check {
        r.push("--dry-run".to_owned());
        r.push("--set-exit-if-changed".to_owned());
    } else {
        r.push("--replace".to_owned());
    }
    assert(chars::views(r@) =~= gjf_options(style, check));
    r
}

/// In check mode the formatters are told not to write.
pub proof fn check_mode_is_a_dry_run(kt: KtfmtStyle, g: GjfStyle)
    ensures
        ktfmt_options(kt, true).contains("--dry-run"@),
        gjf_options(g, true).contains("--dry-run"@),
        !gjf_options(g, true).contains("--replace"@),
{
    reveal_strlit("--dry-run");
    reveal_strlit("--replace");
    reveal_strlit("--aosp");
    reveal_strlit("--set-exit-if-changed");
    assert(ktfmt_options(kt, true)[2] == "--dry-run"@);
    let o = gjf_options(g, true);
    match g {
        GjfStyle::Aosp => {
            assert(o =~= seq!["--aosp"@, "--dry-run"@, "--set-exit-if-changed"@]);
            assert(o[1] == "--dry-run"@);
        },
        GjfStyle::Google => {
            assert(o =~= seq!["--dry-run"@, "--set-exit-if-changed"@]);
            assert(o[0] == "--dry-run"@);
        },
    }
    assert("--replace"@.len() == 9 && "--dry-run"@.len() == 9);
    assert("--replace"@[2] == 'r' && "--dry-run"@[2] == 'd');
    assert("--aosp"@.len() == 6);
    assert("--set-exit-if-changed"@.len() == 21);
}

/// A warning of the JVM.
pub open spec fn is_jvm_noise(line: Seq<char>) -> bool {
    chars::starts_with(chars::trim_start(line), "WARNING:"@)
}

/// The lines that are no warning of the JVM.
pub open spec fn without_noise(lines: Seq<Seq<char>>) -> Seq<Seq<char>>
    decreases lines.len(),
{
    if lines.len() == 0 {
        Seq::empty()
    } else {
        let rest = without_noise(lines.drop_last());
        if is_jvm_noise(lines.last()) {
            rest
        } else {
            rest.push(lines.last())
        }
    }
}

/// Error output without the warnings of the JVM.
pub open spec fn diagnostics(stderr: Seq<char>) -> Seq<char> {
    chars::trim(chars::join(without_noise(chars::lines(stderr)), "\n"@))
}

/// Drops the warnings of the JVM from error output.
pub fn filter_jvm_noise(stderr: &str) -> (r: String)
    ensures
        r@ == diagnostics(stderr@),
{
    let lines = text::lines(stderr);
    let ghost all = chars::lines(stderr@);
    let mut kept: Vec<String> = Vec::new();
    let mut i: usize = 0;
    assert(chars::views(kept@) =~= Seq::empty());
    while i < lines.len()
        invariant
            i <= lines.len(),
            all == chars::views(lines@),
            chars::views(kept@) == without_noise(all.take(i as int)),
        decreases lines.len() - i,
    {
        let ghost before = chars::views(kept@);
        assert(all.take(i + 1).drop_last() =~= all.take(i as int));
        assert(all[i as int] == lines@[i as int]@);
        if !text::starts_with(&text::trim_start(&lines[i]), "WARNING:") {
            kept.push(lines[i].clone());
            assert(chars::views(kept@) =~= before.push(all[i as int]));
        }
        i += 1;
    }
    assert(all.take(i as int) =~= all);
    text::trim(&text::join(&kept, "\n"))
}

/// The exit code in words; a process without one counts as `-1`.
pub open spec fn exit_text(code: Option<i32>) -> Seq<char> {
    chars::signed_decimal(
        match code {
            Some(c) => c as int,
            None => -1,
        },
    )
}

/// The exit code in words; a process without one counts as `-1`.
pub fn exit_code(code: Option<i32>) -> (r: String)
    ensures
        r@ == exit_text(code),
{
    match code {
        Some(c) => text::signed_decimal(c),
        None => text::signed_decimal(-1),
    }
}

/// What is said of a failed tool: the exit code, and the details if any.
pub open spec fn failure_text(tool: Seq<char>, code: Option<i32>, details: Seq<char>) -> Seq<
    char,
> {
    if details.len() == 0 {
        tool + " failed (exit "@ + exit_text(code) + ")"@
    } else {
        tool + " failed (exit "@ + exit_text(code) + "):\n"@ + details
    }
}

fn failure(tool: &str, code: Option<i32>, details: &str) -> (r: ToolError)
    ensures
        r.message@ == failure_text(tool@, code, details@),
{
    let exit = exit_code(code);
    if details.is_empty() {
        ToolError { message: text::cat4(tool, " failed (exit ", &exit, ")") }
    } else {
        let mut message = text::cat4(tool, " failed (exit ", &exit, "):\n");
        message.push_str(details);
        ToolError { message }
    }
}

/// What a finished formatter means: an exit code other than zero is a failure,
/// told with the error output, JVM warnings aside.
pub fn interpret_run(tool: &str, output: &ToolOutput) -> (r: Result<(), ToolError>)
    ensures
        output.success ==> r is Ok,
        !output.success ==> (r matches Err(e) && e.message@ == failure_text(
            tool@,
            output.code,
            diagnostics(output.stderr@),
        )),
{
    if output.success {
        return Ok(());
    }
    let details = filter_jvm_noise(&output.stderr);
    Err(failure(tool, output.code, &details))
}

/// What a formatter reported in check mode. An exit code other than zero is no
/// error there: it comes with files that need formatting.
#[derive(Debug, PartialEq, Eq)]
pub struct CheckRun {
    /// Every invocation ended with exit code zero.
    pub success: bool,
    /// The files that need formatting.
    pub paths: Vec<String>,
    /// The error output, JVM warnings aside.
    pub stderr: String,
}

impl Default for CheckRun {
    fn default() -> (r: Self)
        ensures
            !r.success,
            r.paths@.len() == 0,
            r.stderr@.len() == 0,
    {
        CheckRun { success: false, paths: Vec::new(), stderr: String::new() }
    }
}

/// Two reports, a line apart where both say something.
pub open spec fn merged_text(a: Seq<char>, b: Seq<char>) -> Seq<char> {
    if b.len() == 0 {
        a
    } else if a.len() == 0 {
        b
    } else {
        a.push('\n') + b
    }
}

/// Adds a report, a line apart where both say something.
pub fn merge_text(a: &mut String, b: &str)
    ensures
        final(a)@ == merged_text(old(a)@, b@),
{
    if !b.is_empty() {
        if !a.as_str().is_empty() {
            a.push('\n');
        } else {
            assert(a@ + b@ =~= b@);
        }
        a.push_str(b);
    }
}

impl CheckRun {
    /// Adds the report of another invocation.
    pub fn merge(&mut self, other: CheckRun)
        ensures
            final(self).success == (old(self).success && other.success),
            chars::views(final(self).paths@) == chars::views(old(self).paths@) + chars::views(
                other.paths@,
            ),
            final(self).stderr@ == merged_text(old(self).stderr@, other.stderr@),
    {
        if !other.success {
            self.success = false;
        }
        text::append(&mut self.paths, &other.paths);
        merge_text(&mut self.stderr, &other.stderr);
    }
}

/// The lines, trimmed, of which something is left.
pub open spec fn nonempty_trimmed(lines: Seq<Seq<char>>) -> Seq<Seq<char>>
    decreases lines.len(),
{
    if lines.len() == 0 {
        Seq::empty()
    } else {
        let rest = nonempty_trimmed(lines.drop_last());
        let t = chars::trim(lines.last());
        if t.len() > 0 {
            rest.push(t)
        } else {
            rest
        }
    }
}

/// The lines of a text, trimmed, of which something is left.
pub fn listed_paths(stdout: &str) -> (r: Vec<String>)
    ensures
        chars::views(r@) == nonempty_trimmed(chars::lines(stdout@)),
{
    let lines = text::lines(stdout);
    let ghost all = chars::lines(stdout@);
    let mut r: Vec<String> = Vec::new();
    let mut i: usize = 0;
    assert(chars::views(r@) =~= Seq::empty());
    while i < lines.len()
        invariant
            i <= lines.len(),
            all == chars::views(lines@),
            chars::views(r@) == nonempty_trimmed(all.take(i as int)),
        decreases lines.len() - i,
    {
        let ghost before = chars::views(r@);
        assert(all.take(i + 1).drop_last() =~= all.take(i as int));
        assert(all[i as int] == lines@[i as int]@);
        let t = text::trim(&lines[i]);
        if !t.as_str().is_empty() {
            r.push(t);
            assert(chars::views(r@) =~= before.push(t@));
        }
        i += 1;
    }
    assert(all.take(i as int) =~= all);
    r
}

/// What a finished formatter means in check mode: its report, or a failure
/// where it failed without one.
pub fn interpret_check(tool: &str, output: &ToolOutput) -> (r: Result<CheckRun, ToolError>)
    ensures
        ({
            let paths = nonempty_trimmed(chars::lines(output.stdout@));
            let errors = diagnostics(output.stderr@);
            if !output.success && paths.len() == 0 && errors.len() == 0 {
                r matches Err(e) && e.message@ == failure_text(
                    tool@,
                    output.code,
                    Seq::<char>::empty(),
                )
            } else {
                r matches Ok(run) && run.success == output.success && chars::views(run.paths@)
                    == paths && run.stderr@ == errors
            }
        }),
{
    let paths = listed_paths(&output.stdout);
    let stderr = filter_jvm_noise(&output.stderr);
    assert(chars::views(paths@).len() == paths@.len());
    if !output.success && paths.len() == 0 && stderr.as_str().is_empty() {
        proof {
            reveal_strlit("");
            assert(""@ =~= Seq::<char>::empty());
        }
        return Err(failure(tool, output.code, ""));
    }
    Ok(CheckRun { success: output.success, paths, stderr })
}

/// Bytes that a file takes on a command line.
pub open spec fn arg_size(f: Seq<char>) -> nat {
    chars::byte_len(f) + 1
}

/// Bytes that a list takes on a command line.
pub open spec fn args_size(files: Seq<Seq<char>>) -> nat
    decreases files.len(),
{
    if files.len() == 0 {
        0
    } else {
        args_size(files.drop_last()) + arg_size(files.last())
    }
}

/// How many further files fit when `used` bytes are taken.
pub open spec fn fitting(files: Seq<Seq<char>>, used: nat, budget: nat) -> nat
    decreases files.len(),
{
    if files.len() == 0 || used + arg_size(files[0]) > budget {
        0
    } else {
        1 + fitting(files.skip(1), used + arg_size(files[0]), budget)
    }
}

/// How many files the first invocation takes: as many as fit, and at least one.
pub open spec fn first_chunk(files: Seq<Seq<char>>, budget: nat) -> nat {
    if files.len() == 0 {
        0
    } else {
        1 + fitting(files.skip(1), arg_size(files[0]), budget)
    }
}

proof fn lemma_fitting_len(files: Seq<Seq<char>>, used: nat, budget: nat)
    ensures
        fitting(files, used, budget) <= files.len(),
    decreases files.len(),
{
    if files.len() > 0 && used + arg_size(files[0]) <= budget {
        lemma_fitting_len(files.skip(1), used + arg_size(files[0]), budget);
    }
}

/// The files of each invocation.
pub open spec fn chunked(files: Seq<Seq<char>>, budget: nat) -> Seq<Seq<Seq<char>>>
    decreases files.len(),
{
    let n = first_chunk(files, budget) as int;
    if files.len() == 0 || n <= 0 || n > files.len() {
        Seq::empty()
    } else {
        seq![files.take(n)] + chunked(files.skip(n), budget)
    }
}

/// The characters of each list of a list.
pub open spec fn lists_view(v: Seq<Vec<String>>) -> Seq<Seq<Seq<char>>> {
    v.map_values(|l: Vec<String>| chars::views(l@))
}

fn copy_range(files: &Vec<String>, from: usize, to: usize) -> (r: Vec<String>)
    requires
        from <= to <= files.len(),
    ensures
        chars::views(r@) == chars::views(files@).subrange(from as int, to as int),
{
    let mut r: Vec<String> = Vec::new();
    let mut i: usize = from;
    while i < to
        invariant
            from <= i <= to <= files.len(),
            chars::views(r@) =~= chars::views(files@).subrange(from as int, i as int),
        decreases to - i,
    {
        let ghost before = chars::views(r@);
        r.push(files[i].clone());
        assert(chars::views(r@) =~= before.push(files@[i as int]@));
        i += 1;
    }
    r
}

/// Splits the files into lists that fit on a command line of `budget` bytes
/// each. A file that does not fit by itself gets a list of its own.
pub fn chunk_files(files: &Vec<String>, budget: usize) -> (r: Vec<Vec<String>>)
    ensures
        lists_view(r@) == chunked(chars::views(files@), budget as nat),
{
    let ghost all = chars::views(files@);
    let mut out: Vec<Vec<String>> = Vec::new();
    let mut start: usize = 0;
    let mut size: u128 = 0;
    let mut i: usize = 0;
    assert(all.skip(0) =~= all);
    assert(lists_view(out@) + chunked(all, budget as nat) =~= chunked(all, budget as nat));
    while i < files.len()
        invariant
            start <= i <= files.len(),
            i == start ==> size == 0,
            all == chars::views(files@),
            size <= 0x2_0000_0000_0000_0000,
            i > start ==> (size <= budget || i == start + 1),
            lists_view(out@) + chunked(all.skip(start as int), budget as nat) == chunked(
                all,
                budget as nat,
            ),
            i > start ==> first_chunk(all.skip(start as int), budget as nat) == (i - start)
                + fitting(all.skip(i as int), size as nat, budget as nat),
        decreases files.len() - i,
    {
        let s: u128 = text::byte_len(&files[i]) as u128 + 1;
        let ghost t = all.skip(i as int);
        assert(t[0] == files@[i as int]@);
        assert(s == arg_size(t[0]));
        assert(t.skip(1) =~= all.skip(i + 1));
        if size + s > budget as u128 && i > start {
            let chunk = copy_range(files, start, i);
            let ghost before = lists_view(out@);
            proof {
                let rest = all.skip(start as int);
                assert(first_chunk(rest, budget as nat) == i - start);
                assert(rest.take(i - start) =~= all.subrange(start as int, i as int));
                assert(rest.skip(i - start) =~= all.skip(i as int));
                assert(before + (seq![chars::views(chunk@)] + chunked(t, budget as nat))
                    =~= before.push(chars::views(chunk@)) + chunked(t, budget as nat));
            }
            out.push(chunk);
            assert(lists_view(out@) =~= before.push(chars::views(chunk@)));
            start = i;
            size = 0;
        }
        size = size + s;
        i += 1;
    }
    if start < files.len() {
        let chunk = copy_range(files, start, files.len());
        let ghost before = lists_view(out@);
        proof {
            let rest = all.skip(start as int);
            let e = all.skip(files.len() as int);
            assert(e =~= Seq::empty());
            assert(first_chunk(rest, budget as nat) == rest.len());
            assert(rest.take(rest.len() as int) =~= rest);
            assert(rest =~= all.subrange(start as int, files.len() as int));
            assert(rest.skip(rest.len() as int) =~= Seq::empty());
            assert(chunked(Seq::empty(), budget as nat) =~= Seq::empty());
            assert(chunked(rest, budget as nat) =~= seq![rest] + Seq::empty());
        }
        out.push(chunk);
        assert(lists_view(out@) =~= before.push(chars::views(chunk@)));
    } else {
        assert(all.skip(start as int) =~= Seq::empty());
        assert(lists_view(out@) + Seq::<Seq<Seq<char>>>::empty() =~= lists_view(out@));
    }
    out
}

/// All lists one after another.
pub open spec fn flattened(lists: Seq<Seq<Seq<char>>>) -> Seq<Seq<char>>
    decreases lists.len(),
{
    if lists.len() == 0 {
        Seq::empty()
    } else {
        lists[0] + flattened(lists.skip(1))
    }
}

/// Every file is in exactly one invocation, in order.
pub proof fn chunks_make_up_the_files(files: Seq<Seq<char>>, budget: nat)
    ensures
        flattened(chunked(files, budget)) == files,
    decreases files.len(),
{
    if files.len() > 0 {
        let n = first_chunk(files, budget) as int;
        lemma_fitting_len(files.skip(1), arg_size(files[0]), budget);
        chunks_make_up_the_files(files.skip(n), budget);
        let c = chunked(files, budget);
        assert(c.skip(1) =~= chunked(files.skip(n), budget));
        assert(files.take(n) + files.skip(n) =~= files);
    } else {
        assert(files =~= Seq::empty());
    }
}

proof fn lemma_args_size_front(files: Seq<Seq<char>>)
    requires
        files.len() > 0,
    ensures
        args_size(files) == arg_size(files[0]) + args_size(files.skip(1)),
    decreases files.len(),
{
    let t = files.skip(1);
    if files.len() > 1 {
        let init = files.drop_last();
        lemma_args_size_front(init);
        assert(init.skip(1) =~= t.drop_last());
    } else {
        assert(files.drop_last() =~= Seq::empty());
        assert(t =~= Seq::empty());
    }
}

proof fn lemma_fitting_size(files: Seq<Seq<char>>, used: nat, budget: nat)
    requires
        fitting(files, used, budget) > 0,
    ensures
        used + args_size(files.take(fitting(files, used, budget) as int)) <= budget,
    decreases files.len(),
{
    let n = fitting(files, used, budget) as int;
    lemma_fitting_len(files, used, budget);
    let head = files.take(n);
    lemma_args_size_front(head);
    let t = files.skip(1);
    assert(head.skip(1) =~= t.take(n - 1));
    if n > 1 {
        lemma_fitting_size(t, used + arg_size(files[0]), budget);
    } else {
        assert(t.take(0) =~= Seq::empty());
    }
}

/// No invocation is without files, and one with several files stays within the
/// budget.
pub proof fn chunks_fit_the_budget(files: Seq<Seq<char>>, budget: nat, k: int)
    requires
        0 <= k < chunked(files, budget).len(),
    ensures
        chunked(files, budget)[k].len() >= 1,
        chunked(files, budget)[k].len() > 1 ==> args_size(chunked(files, budget)[k]) <= budget,
    decreases files.len(),
{
    let n = first_chunk(files, budget) as int;
    lemma_fitting_len(files.skip(1), arg_size(files[0]), budget);
    if k > 0 {
        chunks_fit_the_budget(files.skip(n), budget, k - 1);
        assert(chunked(files, budget)[k] == chunked(files.skip(n), budget)[k - 1]);
    } else {
        let head = files.take(n);
        if n > 1 {
            lemma_args_size_front(head);
            lemma_fitting_size(files.skip(1), arg_size(files[0]), budget);
            assert(head.skip(1) =~= files.skip(1).take(n - 1));
        }
    }
}

/// Bytes left for files when the fixed arguments are on the command line.
pub open spec fn file_budget(base: Seq<Seq<char>>, budget: nat) -> nat {
    if args_size(base) < budget {
        (budget - args_size(base)) as nat
    } else {
        1
    }
}

/// The arguments of each invocation: the fixed ones, then its files.
pub open spec fn invocations(base: Seq<Seq<char>>, chunks: Seq<Seq<Seq<char>>>) -> Seq<
    Seq<Seq<char>>,
> {
    chunks.map_values(|c: Seq<Seq<char>>| base + c)
}

fn base_size(base: &Vec<String>, limit: usize) -> (r: usize)
    ensures
        r == if args_size(chars::views(base@)) < limit {
            args_size(chars::views(base@))
        } else {
            limit as nat
        },
{
    let ghost all = chars::views(base@);
    let mut size: u128 = 0;
    let mut i: usize = 0;
    assert(all.take(0) =~= Seq::empty());
    while i < base.len()
        invariant
            i <= base.len(),
            all == chars::views(base@),
            size < limit || (size == 0 && limit == 0),
            size == args_size(all.take(i as int)),
        decreases base.len() - i,
    {
        assert(all.take(i + 1).drop_last() =~= all.take(i as int));
        assert(all[i as int] == base@[i as int]@);
        proof {
            lemma_args_size_prefix(all, i + 1);
        }
        size = size + text::byte_len(&base[i]) as u128 + 1;
        if size >= limit as u128 {
            return limit;
        }
        i += 1;
    }
    assert(all.take(i as int) =~= all);
    size as usize
}

proof fn lemma_args_size_prefix(files: Seq<Seq<char>>, i: int)
    requires
        0 <= i <= files.len(),
    ensures
        args_size(files.take(i)) <= args_size(files),
    decreases files.len() - i,
{
    if i < files.len() {
        assert(files.take(i + 1).drop_last() =~= files.take(i));
        lemma_args_size_prefix(files, i + 1);
    } else {
        assert(files.take(i) =~= files);
    }
}

/// The arguments of each invocation of a tool that takes its files on the
/// command line; none where there are no files.
pub fn batched_invocations(base: &Vec<String>, files: &Vec<String>, budget: usize) -> (r: Vec<
    Vec<String>,
>)
    ensures
        lists_view(r@) == invocations(
            chars::views(base@),
            chunked(
                chars::views(files@),
                file_budget(chars::views(base@), budget as nat),
            ),
        ),
{
    let used = base_size(base, budget);
    let rest: usize = if used < budget {
        budget - used
    } else {
        1
    };
    let chunks = chunk_files(files, rest);
    let ghost all = lists_view(chunks@);
    let ghost b = chars::views(base@);
    let mut r: Vec<Vec<String>> = Vec::new();
    let mut i: usize = 0;
    assert(lists_view(r@) =~= invocations(b, all.take(0)));
    while i < chunks.len()
        invariant
            i <= chunks.len(),
            all == lists_view(chunks@),
            b == chars::views(base@),
            lists_view(r@) =~= invocations(b, all.take(i as int)),
        decreases chunks.len() - i,
    {
        let ghost before = lists_view(r@);
        let mut args = text::copy_list(base);
        text::append(&mut args, &chunks[i]);
        assert(all[i as int] == chars::views(chunks@[i as int]@));
        r.push(args);
        assert(lists_view(r@) =~= before.push(chars::views(args@)));
        assert(invocations(b, all.take(i + 1)) =~= invocations(b, all.take(i as int)).push(
            b + all[i as int],
        ));
        i += 1;
    }
    assert(all.take(i as int) =~= all);
    r
}

/// Without files there is nothing to invoke.
pub proof fn no_files_no_invocations(base: Seq<Seq<char>>, budget: nat)
    ensures
        invocations(base, chunked(Seq::<Seq<char>>::empty(), file_budget(base, budget))).len() == 0,
{
}

/// What goes into the file that lists the files: one per line.
pub fn argfile_text(files: &Vec<String>) -> (r: String)
    ensures
        r@ == chars::unlines(chars::views(files@)),
{
    let ghost all = chars::views(files@);
    let mut r = String::new();
    let mut i: usize = 0;
    assert(all.take(0) =~= Seq::empty());
    while i < files.len()
        invariant
            i <= files.len(),
            all == chars::views(files@),
            r@ == chars::unlines(all.take(i as int)),
        decreases files.len() - i,
    {
        let ghost before = r@;
        assert(all.take(i + 1).drop_last() =~= all.take(i as int));
        assert(all[i as int] == files@[i as int]@);
        r.push_str(&files[i]);
        r.push('\n');
        assert(r@ =~= before + all[i as int] + seq!['\n']);
        i += 1;
    }
    assert(all.take(i as int) =~= all);
    r
}

/// The arguments of a tool that reads its files from the file `argfile`; none
/// where there are no files to format.
pub fn argfile_invocation(base: &Vec<String>, files: &Vec<String>, argfile: &str) -> (r: Option<
    Vec<String>,
>)
    ensures
        match r {
            None => files@.len() == 0,
            Some(v) => files@.len() > 0 && chars::views(v@) == chars::views(base@).push(
                "@"@ + argfile@,
            ),
        },
{
    if files.len() == 0 {
        return None;
    }
    let mut args = text::copy_list(base);
    let ghost before = chars::views(args@);
    args.push(text::cat2("@", argfile));
    assert(chars::views(args@) =~= before.push("@"@ + argfile@));
    Some(args)
}

/// Output and error output, trimmed, a line apart where both say something.
pub open spec fn details_of(stdout: Seq<char>, stderr: Seq<char>) -> Seq<char> {
    merged_text(chars::trim(stdout), chars::trim(stderr))
}

/// Output and error output, trimmed, a line apart where both say something.
pub fn output_details(stdout: &str, stderr: &str) -> (r: String)
    ensures
        r@ == details_of(stdout@, stderr@),
{
    let mut r = text::trim(stdout);
    merge_text(&mut r, &text::trim(stderr));
    r
}

/// What is said of a failed tool that is not a JVM one.
pub fn formatter_failure(tool: &str, output: &ToolOutput) -> (r: ToolError)
    ensures
        r.message@ == failure_text(tool@, output.code, details_of(output.stdout@, output.stderr@)),
{
    failure(tool, output.code, &output_details(&output.stdout, &output.stderr))
}

/// A check runs a formatter in the style that formatting uses: ktfmt gets what
/// it gets for formatting and then the two flags that keep it from writing, and
/// google-java-format gets the two flags in the place of the one that makes it
/// write.
pub proof fn check_runs_in_the_style_of_formatting(kt: KtfmtStyle, g: GjfStyle)
    ensures
        ktfmt_options(kt, true) == ktfmt_options(kt, false) + seq![
            "--dry-run"@,
            "--set-exit-if-changed"@,
        ],
        gjf_options(g, false).len() > 0 && gjf_options(g, false).last() == "--replace"@,
        gjf_options(g, true) == gjf_options(g, false).drop_last() + seq![
            "--dry-run"@,
            "--set-exit-if-changed"@,
        ],
{
    assert(gjf_options(g, true) =~= gjf_options(g, false).drop_last() + seq![
        "--dry-run"@,
        "--set-exit-if-changed"@,
    ]);
}

/// In either mode ktfmt is told its style first, each style by the flag of its
/// name, and to be quiet next; google-java-format is told of the AOSP style
/// first, and of no style where it is its own.
pub proof fn style_flags_come_first(kt: KtfmtStyle, g: GjfStyle, check: bool)
    ensures
        ktfmt_options(kt, check).len() == (if check { 4int } else { 2int }),
        kt is Google ==> ktfmt_options(kt, check)[0] == "--google-style"@,
        kt is Kotlinlang ==> ktfmt_options(kt, check)[0] == "--kotlinlang-style"@,
        kt is Meta ==> ktfmt_options(kt, check)[0] == "--meta-style"@,
        ktfmt_options(kt, check)[1] == "--quiet"@,
        g is Aosp ==> gjf_options(g, check) == seq!["--aosp"@] + gjf_options(
            GjfStyle::Google,
            check,
        ),
        gjf_options(GjfStyle::Google, check).len() == (if check { 2int } else { 1int }),
{
    assert(gjf_options(GjfStyle::Aosp, check) =~= seq!["--aosp"@] + gjf_options(
        GjfStyle::Google,
        check,
    ));
}

/// A jar is run by the JVM that was found, with a bounded heap and the packages
/// of the compiler opened, and comes last; without a JVM it cannot be run.
pub proof fn jars_are_run_by_the_jvm(jar: String, java: Seq<char>)
    ensures
        command_prefix(Invoker::Jar(jar), None) is None,
        command_prefix(Invoker::Jar(jar), Some(java)) matches Some(words) && {
            &&& words.len() == 16
            &&& words[0] == java
            &&& words[1] == "-Xmx512m"@
            &&& words[14] == "-jar"@
            &&& words[15] == jar@
            &&& words.contains("--add-opens=java.base/java.lang=ALL-UNNAMED"@)
            &&& words.contains("--add-opens=java.base/java.util=ALL-UNNAMED"@)
            &&& words.contains("--add-opens=jdk.compiler/com.sun.tools.javac.api=ALL-UNNAMED"@)
            &&& words.contains("--add-opens=jdk.compiler/com.sun.tools.javac.comp=ALL-UNNAMED"@)
            &&& words.contains("--add-opens=jdk.compiler/com.sun.tools.javac.file=ALL-UNNAMED"@)
            &&& words.contains("--add-opens=jdk.compiler/com.sun.tools.javac.jvm=ALL-UNNAMED"@)
            &&& words.contains("--add-opens=jdk.compiler/com.sun.tools.javac.main=ALL-UNNAMED"@)
            &&& words.contains("--add-opens=jdk.compiler/com.sun.tools.javac.model=ALL-UNNAMED"@)
            &&& words.contains("--add-opens=jdk.compiler/com.sun.tools.javac.parser=ALL-UNNAMED"@)
            &&& words.contains(
                "--add-opens=jdk.compiler/com.sun.tools.javac.processing=ALL-UNNAMED"@,
            )
            &&& words.contains("--add-opens=jdk.compiler/com.sun.tools.javac.tree=ALL-UNNAMED"@)
            &&& words.contains("--add-opens=jdk.compiler/com.sun.tools.javac.util=ALL-UNNAMED"@)
        },
{
    let o = jvm_options();
    let words = seq![java] + o + seq!["-jar"@, jar@];
    assert forall|k: int| 0 <= k < 13 implies words[k + 1] == #[trigger] o[k] && words.contains(
        o[k],
    ) by {
        assert(words[k + 1] == o[k]);
    }
    assert(o[1] == "--add-opens=java.base/java.lang=ALL-UNNAMED"@);
    assert(o[2] == "--add-opens=java.base/java.util=ALL-UNNAMED"@);
    assert(o[3] == "--add-opens=jdk.compiler/com.sun.tools.javac.api=ALL-UNNAMED"@);
    assert(o[4] == "--add-opens=jdk.compiler/com.sun.tools.javac.comp=ALL-UNNAMED"@);
    assert(o[5] == "--add-opens=jdk.compiler/com.sun.tools.javac.file=ALL-UNNAMED"@);
    assert(o[6] == "--add-opens=jdk.compiler/com.sun.tools.javac.jvm=ALL-UNNAMED"@);
    assert(o[7] == "--add-opens=jdk.compiler/com.sun.tools.javac.main=ALL-UNNAMED"@);
    assert(o[8] == "--add-opens=jdk.compiler/com.sun.tools.javac.model=ALL-UNNAMED"@);
    assert(o[9] == "--add-opens=jdk.compiler/com.sun.tools.javac.parser=ALL-UNNAMED"@);
    assert(o[10] == "--add-opens=jdk.compiler/com.sun.tools.javac.processing=ALL-UNNAMED"@);
    assert(o[11] == "--add-opens=jdk.compiler/com.sun.tools.javac.tree=ALL-UNNAMED"@);
    assert(o[12] == "--add-opens=jdk.compiler/com.sun.tools.javac.util=ALL-UNNAMED"@);
}

/// A native build is run as it is, whether or not there is a JVM.
pub proof fn native_builds_need_no_jvm(bin: String, java: Option<Seq<char>>)
    ensures
        command_prefix(Invoker::Native(bin), java) == Some(seq![bin@]),
{
}

/// Of error output just the lines that begin, after blanks, with `WARNING:` are
/// left out; the others stay in their order.
pub proof fn only_warnings_are_noise(lines: Seq<Seq<char>>)
    ensures
        without_noise(lines) == lines.filter(
            |l: Seq<char>| !chars::starts_with(chars::trim_start(l), "WARNING:"@),
        ),
    decreases lines.len(),
{
    reveal(Seq::filter);
    if lines.len() > 0 {
        only_warnings_are_noise(lines.drop_last());
    }
}

/// Of a list of lines, what is left of each when trimmed stays where it is
/// something, in order.
pub proof fn blank_lines_are_left_out(lines: Seq<Seq<char>>)
    ensures
        nonempty_trimmed(lines) == lines.map_values(|l: Seq<char>| chars::trim(l)).filter(
            |t: Seq<char>| t.len() > 0,
        ),
    decreases lines.len(),
{
    reveal(Seq::filter);
    let m = lines.map_values(|l: Seq<char>| chars::trim(l));
    if lines.len() > 0 {
        blank_lines_are_left_out(lines.drop_last());
        assert(m.drop_last() =~= lines.drop_last().map_values(|l: Seq<char>| chars::trim(l)));
    }
}

/// A process without an exit code is reported like one that ended with -1, and
/// a report with details is the one without them, its bracket followed by a
/// colon, a line feed and the details.
pub proof fn failures_name_code_and_details(tool: Seq<char>, code: Option<i32>, details: Seq<char>)
    ensures
        failure_text(tool, None, details) == failure_text(tool, Some(-1i32), details),
        code matches Some(c) ==> failure_text(tool, code, Seq::empty()) == tool
            + " failed (exit "@ + chars::signed_decimal(c as int) + ")"@,
        details.len() > 0 ==> failure_text(tool, code, details) == failure_text(
            tool,
            code,
            Seq::empty(),
        ) + ":\n"@ + details,
{
    reveal_strlit(")");
    reveal_strlit(":\n");
    reveal_strlit("):\n");
    assert("):\n"@ =~= ")"@ + ":\n"@);
    if details.len() > 0 {
        assert(failure_text(tool, code, details) =~= failure_text(tool, code, Seq::empty()) + ":\n"@
            + details);
    }
}

/// Reports are merged into one that begins with the first and ends with the
/// second; a report that says nothing changes nothing, and between two that
/// say something stands one line feed.
pub proof fn merged_reports_keep_both(a: Seq<char>, b: Seq<char>)
    ensures
        chars::starts_with(merged_text(a, b), a),
        chars::ends_with(merged_text(a, b), b),
        a.len() == 0 || b.len() == 0 ==> merged_text(a, b).len() == a.len() + b.len(),
        a.len() > 0 && b.len() > 0 ==> merged_text(a, b).len() == a.len() + b.len() + 1
            && merged_text(a, b)[a.len() as int] == '\n',
{
    let m = merged_text(a, b);
    if b.len() == 0 {
        assert(m.take(a.len() as int) =~= a);
        assert(m.skip(m.len() as int) =~= b);
    } else {
        assert(m.take(a.len() as int) =~= a);
        assert(m.skip(m.len() - b.len()) =~= b);
    }
}

/// Each invocation is given the fixed arguments and then its own files, and
/// together the invocations are given every file once and in order.
pub proof fn invocations_cover_the_files(
    base: Seq<Seq<char>>,
    files: Seq<Seq<char>>,
    budget: nat,
    k: int,
)
    requires
        0 <= k < invocations(base, chunked(files, file_budget(base, budget))).len(),
    ensures
        ({
            let calls = invocations(base, chunked(files, file_budget(base, budget)));
            &&& calls[k].len() > base.len()
            &&& calls[k].take(base.len() as int) == base
            &&& flattened(calls.map_values(|c: Seq<Seq<char>>| c.skip(base.len() as int))) == files
            &&& calls[k].len() > base.len() + 1 ==> args_size(calls[k]) <= budget
        }),
{
    let room = file_budget(base, budget);
    let chunks = chunked(files, room);
    let calls = invocations(base, chunks);
    chunks_make_up_the_files(files, room);
    chunks_fit_the_budget(files, room, k);
    assert(calls[k] == base + chunks[k]);
    assert(calls[k].take(base.len() as int) =~= base);
    assert forall|i: int| 0 <= i < chunks.len() implies (#[trigger] calls[i]).skip(base.len() as int)
        == chunks[i] by {
        assert(calls[i].skip(base.len() as int) =~= chunks[i]);
    }
    assert(calls.map_values(|c: Seq<Seq<char>>| c.skip(base.len() as int)) =~= chunks);
    lemma_args_size_append(base, chunks[k]);
    if chunks[k].len() > 1 {
        lemma_args_size_at_least(chunks[k]);
    }
}

proof fn lemma_args_size_append(a: Seq<Seq<char>>, b: Seq<Seq<char>>)
    ensures
        args_size(a + b) == args_size(a) + args_size(b),
    decreases b.len(),
{
    if b.len() > 0 {
        lemma_args_size_append(a, b.drop_last());
        assert((a + b).drop_last() =~= a + b.drop_last());
    } else {
        assert(a + b =~= a);
    }
}

proof fn lemma_args_size_at_least(a: Seq<Seq<char>>)
    ensures
        args_size(a) >= a.len(),
    decreases a.len(),
{
    if a.len() > 0 {
        lemma_args_size_at_least(a.drop_last());
    }
}

/// A file is put into the invocation under way wherever it still fits: none of
/// the invocations but the last could take the file that the next begins with.
pub proof fn chunks_are_filled(files: Seq<Seq<char>>, budget: nat, k: int)
    requires
        0 <= k < chunked(files, budget).len() - 1,
    ensures
        chunked(files, budget)[k + 1].len() > 0,
        args_size(chunked(files, budget)[k].push(chunked(files, budget)[k + 1][0])) > budget,
    decreases files.len(),
{
    let n = first_chunk(files, budget) as int;
    lemma_fitting_len(files.skip(1), arg_size(files[0]), budget);
    let rest = chunked(files.skip(n), budget);
    assert(chunked(files, budget).skip(1) =~= rest);
    assert(chunked(files, budget)[k + 1] == rest[k]);
    if k > 0 {
        chunks_are_filled(files.skip(n), budget, k - 1);
        assert(chunked(files, budget)[k] == rest[k - 1]);
    } else {
        chunks_fit_the_budget(files.skip(n), budget, 0);
        lemma_fitting_len(files.skip(n).skip(1), arg_size(files.skip(n)[0]), budget);
        assert(rest[0] == files.skip(n).take(first_chunk(files.skip(n), budget) as int));
        assert(rest[0][0] == files[n]);
        lemma_fitting_full(files.skip(1), arg_size(files[0]), budget);
        let head = files.take(n);
        assert(head.push(files[n]) =~= files.take(n + 1));
        lemma_args_size_front(files.take(n + 1));
        assert(files.take(n + 1).skip(1) =~= files.skip(1).take(n));
    }
}

proof fn lemma_fitting_full(files: Seq<Seq<char>>, used: nat, budget: nat)
    requires
        fitting(files, used, budget) < files.len(),
    ensures
        used + args_size(files.take(fitting(files, used, budget) as int + 1)) > budget,
    decreases files.len(),
{
    let n = fitting(files, used, budget) as int;
    lemma_args_size_front(files.take(n + 1));
    assert(files.take(n + 1).skip(1) =~= files.skip(1).take(n));
    if n > 0 {
        lemma_fitting_full(files.skip(1), used + arg_size(files[0]), budget);
    } else {
        assert(files.skip(1).take(0) =~= Seq::empty());
    }
}

/// What is left of error output are its lines but for warnings of the JVM, with
/// a line feed between each two of them and no whitespace around the whole.
pub proof fn diagnostics_are_the_other_lines(stderr: Seq<char>)
    ensures
        diagnostics(stderr) == chars::trim(
            chars::join(
                chars::lines(stderr).filter(
                    |l: Seq<char>| !chars::starts_with(chars::trim_start(l), "WARNING:"@),
                ),
                seq!['\n'],
            ),
        ),
{
    reveal_strlit("\n");
    assert("\n"@ =~= seq!['\n']);
    only_warnings_are_noise(chars::lines(stderr));
}

/// The details of a run are what it printed, to its output first, without
/// whitespace around either part.
pub proof fn details_are_both_outputs(stdout: Seq<char>, stderr: Seq<char>)
    ensures
        chars::starts_with(details_of(stdout, stderr), chars::trim(stdout)),
        chars::ends_with(details_of(stdout, stderr), chars::trim(stderr)),
        details_of(stdout, stderr).len() == 0 <==> chars::trim(stdout).len() == 0 && chars::trim(
            stderr,
        ).len() == 0,
        details_of(stdout, stderr).len() <= chars::trim(stdout).len() + chars::trim(stderr).len()
            + 1,
{
    merged_reports_keep_both(chars::trim(stdout), chars::trim(stderr));
}

} // verus!
