//! The formatting steps that need no other program: license headers and
//! whitespace.

use crate::chars;
use crate::config::Config;
use crate::config::ResolvedHeader;
use crate::fspath;
use crate::globs;
use crate::globs::GlobError;
use crate::license;
use crate::license::SourceKind;
use crate::snapshot;
use crate::snapshot::FileState;
use crate::snapshot::FileTexts;
use crate::snapshot::Reading;
use crate::text;
use crate::whitespace;
use vstd::prelude::*;

verus! {

/// What the steps did to a file.
#[derive(Debug, Clone, Copy, PartialEq, Eq)]
pub struct FileReport {
    pub header_added: bool,
    pub whitespace_fixed: bool,
}

impl Default for FileReport {
    fn default() -> (r: Self)
        ensures
            r == (FileReport { header_added: false, whitespace_fixed: false }),
    {
        FileReport { header_added: false, whitespace_fixed: false }
    }
}

impl FileReport {
    pub open spec fn any(self) -> bool {
        self.header_added || self.whitespace_fixed
    }

    /// Whether a step did something.
    pub fn changed(&self) -> (r: bool)
        ensures
            r == self.any(),
    {
        self.header_added || self.whitespace_fixed
    }
}

/// What the steps did to a number of files.
#[derive(Debug, PartialEq, Eq)]
pub struct PipelineReport {
    /// The files that were, or would be, modified.
    pub changed: Vec<String>,
}

impl Default for PipelineReport {
    fn default() -> (r: Self)
        ensures
            r.changed@.len() == 0,
    {
        PipelineReport { changed: Vec::new() }
    }
}

impl PipelineReport {
    /// Notes a file if something was done to it.
    pub fn record(&mut self, path: &str, r: &FileReport)
        ensures
            chars::views(final(self).changed@) == if r.any() {
                chars::views(old(self).changed@).push(path@)
            } else {
                chars::views(old(self).changed@)
            },
    {
        if r.changed() {
            let ghost before = chars::views(self.changed@);
            self.changed.push(path.to_owned());
            assert(chars::views(self.changed@) =~= before.push(path@));
        }
    }
}

/// How `{:?}` prints a text: in quotes, with what cannot stand there escaped.
pub uninterp spec fn debug_text(s: Seq<char>) -> Seq<char>;

/// `format!` with `{:?}` on a text.
#[verifier::external_body]
fn debug_print(s: &str) -> (r: String)
    ensures
        r@ == debug_text(s@),
{
    format!("{:?}", s)
}

/// What is said of a pattern of an excludes file that is none, given how the
/// pattern prints.
pub open spec fn bad_exclude_text(printed: Seq<char>, path: Seq<char>, cause: Seq<char>) -> Seq<
    char,
> {
    "invalid exclude glob "@ + printed + " in "@ + path + ": "@ + cause
}

/// What is said of a pattern of an excludes file that is none.
pub fn describe_bad_exclude(printed: &str, path: &str, cause: &str) -> (r: String)
    ensures
        r@ == bad_exclude_text(printed@, path@, cause@),
{
    let mut s = text::cat4("invalid exclude glob ", printed, " in ", path);
    s.push_str(": ");
    s.push_str(cause);
    s
}

/// Why a header cannot be used.
#[derive(Debug, PartialEq, Eq)]
pub enum HeaderError {
    ReadTemplate { path: String, cause: String },
    ReadExcludes { path: String, cause: String },
    BadExclude { pattern: String, path: String, cause: String },
    ExcludesNotBuilt { cause: String },
}

impl HeaderError {
    /// What the error says.
    pub open spec fn text(self) -> Seq<char> {
        match self {
            HeaderError::ReadTemplate { path, cause } => "read license header template "@ + path@
                + ": "@ + cause@,
            HeaderError::ReadExcludes { path, cause } => "read "@ + path@ + ": "@ + cause@,
            HeaderError::BadExclude { pattern, path, cause } => bad_exclude_text(
                debug_text(pattern@),
                path@,
                cause@,
            ),
            HeaderError::ExcludesNotBuilt { cause } => "build exclude globset: "@ + cause@,
        }
    }

    /// What the error says.
    pub fn message(&self) -> (r: String)
        ensures
            r@ == self.text(),
    {
        match self {
            HeaderError::ReadTemplate { path, cause } => text::cat4(
                "read license header template ",
                path,
                ": ",
                cause,
            ),
            HeaderError::ReadExcludes { path, cause } => text::cat4("read ", path, ": ", cause),
            HeaderError::BadExclude { pattern, path, cause } => describe_bad_exclude(
                &debug_print(pattern),
                path,
                cause,
            ),
            HeaderError::ExcludesNotBuilt { cause } => text::cat2("build exclude globset: ", cause),
        }
    }
}

/// The header of a tool's languages, ready to be used.
pub struct HeaderSpec {
    pub rendered: String,
    pub marker: String,
    pub excludes: globset::GlobSet,
}

/// The patterns of an excludes file: none where there is no such file, nothing
/// where it cannot be read.
pub open spec fn exclude_patterns(
    excludes: Option<Seq<char>>,
    root: Seq<char>,
    files: FileTexts,
) -> Option<Seq<Seq<char>>> {
    match excludes {
        None => Some(Seq::empty()),
        Some(p) => match files.at(fspath::joined(root, p)) {
            Reading::Missing => Some(Seq::empty()),
            Reading::Unreadable(_) => None,
            Reading::Text(t) => Some(snapshot::entry_lines(chars::lines(t))),
        },
    }
}

/// The excludes can be read and make a set.
pub open spec fn excludes_load(
    excludes: Option<Seq<char>>,
    root: Seq<char>,
    files: FileTexts,
) -> bool {
    exclude_patterns(excludes, root, files) matches Some(ps) && (ps.len() == 0
        || globs::well_formed(ps))
}

/// The template can be read and the excludes make a set.
pub open spec fn header_loads(
    header: (Seq<char>, Option<Seq<char>>),
    root: Seq<char>,
    files: FileTexts,
) -> bool {
    files.at(fspath::joined(root, header.0)) is Text && excludes_load(header.1, root, files)
}

impl HeaderSpec {
    /// The header made from these settings for a year.
    pub open spec fn is_made_from(
        self,
        header: (Seq<char>, Option<Seq<char>>),
        root: Seq<char>,
        files: FileTexts,
        year: nat,
    ) -> bool {
        &&& files.at(fspath::joined(root, header.0)) matches Reading::Text(t) && self.rendered@
            == license::rendered(t, year) && self.marker@ == license::marker(t)
        &&& exclude_patterns(header.1, root, files) == Some(globs::set_patterns(self.excludes))
    }

    /// Reads the template and the excludes.
    pub fn load(resolved: &ResolvedHeader, repo_root: &str, files: &FileTexts, year: u32) -> (r:
        Result<Self, HeaderError>)
        ensures
            match r {
                Ok(h) => header_loads(resolved.parts(), repo_root@, *files) && h.is_made_from(
                    resolved.parts(),
                    repo_root@,
                    *files,
                    year as nat,
                ),
                Err(e) => !header_loads(resolved.parts(), repo_root@, *files) && e.is_header_fault(
                    resolved.parts(),
                    repo_root@,
                    *files,
                ),
            },
    {
        let path = fspath::join(repo_root, &resolved.file);
        let template = match files.get(&path) {
            FileState::Text(t) => t,
            other => {
                let cause = snapshot::why_no_text(&other);
                return Err(HeaderError::ReadTemplate { path, cause });
            },
        };
        let rendered = license::render_header(&template, year);
        let marker = license::marker_for_template(&template);
        let excludes = match load_excludes(&resolved.excludes, repo_root, files) {
            Ok(set) => set,
            Err(e) => {
                return Err(e);
            },
        };
        Ok(HeaderSpec { rendered, marker, excludes })
    }

    /// Whether the header is kept off a file.
    pub fn is_excluded(&self, file: &str) -> (r: bool)
        ensures
            r == globs::any_accepts(globs::set_patterns(self.excludes), file@),
    {
        globs::is_match(&self.excludes, file)
    }
}

impl HeaderError {
    /// The error is the first one that these settings give.
    pub open spec fn is_header_fault(
        self,
        header: (Seq<char>, Option<Seq<char>>),
        root: Seq<char>,
        files: FileTexts,
    ) -> bool {
        if !(files.at(fspath::joined(root, header.0)) is Text) {
            self matches HeaderError::ReadTemplate { path, cause } && path@ == fspath::joined(
                root,
                header.0,
            ) && cause@ == files.at(path@).reason()
        } else {
            self.is_excludes_fault(header.1, root, files)
        }
    }

    /// The error is the one that the excludes give.
    pub open spec fn is_excludes_fault(
        self,
        excludes: Option<Seq<char>>,
        root: Seq<char>,
        files: FileTexts,
    ) -> bool {
        excludes matches Some(p) && match exclude_patterns(excludes, root, files) {
            None => self matches HeaderError::ReadExcludes { path, cause } && path@
                == fspath::joined(root, p) && cause@ == files.at(path@).reason(),
            Some(ps) => !globs::well_formed(ps) && match self {
                HeaderError::BadExclude { pattern, path, .. } => path@ == fspath::joined(root, p)
                    && exists|i: int|
                    0 <= i < ps.len() && pattern@ == #[trigger] ps[i] && !globs::glob_parses(ps[i])
                        && globs::parse_up_to(ps, i),
                HeaderError::ExcludesNotBuilt { .. } => globs::parse_up_to(ps, ps.len() as int),
                _ => false,
            },
        }
    }
}

/// Reads the excludes of a header.
pub fn load_excludes(path: &Option<String>, repo_root: &str, files: &FileTexts) -> (r: Result<
    globset::GlobSet,
    HeaderError,
>)
    ensures
        match r {
            Ok(set) => excludes_load(chars::opt_view(*path), repo_root@, *files)
                && exclude_patterns(chars::opt_view(*path), repo_root@, *files) == Some(
                globs::set_patterns(set),
            ),
            Err(e) => !excludes_load(chars::opt_view(*path), repo_root@, *files)
                && e.is_excludes_fault(chars::opt_view(*path), repo_root@, *files),
        },
{
    let none: Vec<String> = Vec::new();
    assert(chars::views(none@) =~= Seq::empty());
    let (patterns, abs) = match path {
        None => (none, String::new()),
        Some(p) => {
            let abs = fspath::join(repo_root, p);
            match files.get(&abs) {
                FileState::Missing => (none, abs),
                FileState::Text(t) => (snapshot::list_entries(&t), abs),
                FileState::Unreadable(cause) => {
                    return Err(HeaderError::ReadExcludes { path: abs, cause });
                },
            }
        },
    };
    assert(chars::views(patterns@).len() == patterns@.len());
    match globs::compile(&patterns) {
        Ok(set) => Ok(set),
        Err(GlobError::BadPattern { pattern, cause }) => Err(
            HeaderError::BadExclude { pattern, path: abs, cause },
        ),
        Err(GlobError::NotBuilt { cause }) => Err(HeaderError::ExcludesNotBuilt { cause }),
    }
}

/// The headers per language; none where the configuration gives none.
pub struct Headers {
    pub kotlin: Option<HeaderSpec>,
    pub java: Option<HeaderSpec>,
    pub rust: Option<HeaderSpec>,
}

/// A language's header is the one that its settings give.
pub open spec fn is_header_for(
    h: Option<HeaderSpec>,
    header: Option<(Seq<char>, Option<Seq<char>>)>,
    root: Seq<char>,
    files: FileTexts,
    year: nat,
) -> bool {
    match header {
        Some(p) => h matches Some(s) && s.is_made_from(p, root, files, year),
        None => h is None,
    }
}

/// A language's header settings, if any, can be used.
pub open spec fn opt_header_loads(
    header: Option<(Seq<char>, Option<Seq<char>>)>,
    root: Seq<char>,
    files: FileTexts,
) -> bool {
    header matches Some(p) ==> header_loads(p, root, files)
}

fn load_header(
    resolved: &Option<ResolvedHeader>,
    repo_root: &str,
    files: &FileTexts,
    year: u32,
) -> (r: Result<Option<HeaderSpec>, HeaderError>)
    ensures
        match r {
            Ok(h) => opt_header_loads(crate::config::opt_parts(*resolved), repo_root@, *files)
                && is_header_for(
                h,
                crate::config::opt_parts(*resolved),
                repo_root@,
                *files,
                year as nat,
            ),
            Err(e) => !opt_header_loads(crate::config::opt_parts(*resolved), repo_root@, *files)
                && (crate::config::opt_parts(*resolved) matches Some(p) && e.is_header_fault(
                p,
                repo_root@,
                *files,
            )),
        },
{
    match resolved {
        Some(h) => match HeaderSpec::load(h, repo_root, files, year) {
            Ok(s) => Ok(Some(s)),
            Err(e) => Err(e),
        },
        None => Ok(None),
    }
}

impl Headers {
    /// All headers that the configuration gives can be used.
    pub open spec fn load_all(config: Config, root: Seq<char>, files: FileTexts) -> bool {
        opt_header_loads(config.kotlin_header(), root, files) && opt_header_loads(
            config.java_header(),
            root,
            files,
        ) && opt_header_loads(config.rust_header(), root, files)
    }

    /// These are the headers that the configuration gives for a year.
    pub open spec fn are_made_from(
        self,
        config: Config,
        root: Seq<char>,
        files: FileTexts,
        year: nat,
    ) -> bool {
        is_header_for(self.kotlin, config.kotlin_header(), root, files, year) && is_header_for(
            self.java,
            config.java_header(),
            root,
            files,
            year,
        ) && is_header_for(self.rust, config.rust_header(), root, files, year)
    }

    /// Reads the headers that the configuration gives.
    pub fn build(config: &Config, repo_root: &str, files: &FileTexts, year: u32) -> (r: Result<
        Self,
        HeaderError,
    >)
        ensures
            match r {
                Ok(h) => Headers::load_all(*config, repo_root@, *files) && h.are_made_from(
                    *config,
                    repo_root@,
                    *files,
                    year as nat,
                ),
                Err(e) => !Headers::load_all(*config, repo_root@, *files)
                    && if !opt_header_loads(config.kotlin_header(), repo_root@, *files) {
                    e.is_header_fault(config.kotlin_header()->0, repo_root@, *files)
                } else if !opt_header_loads(config.java_header(), repo_root@, *files) {
                    e.is_header_fault(config.java_header()->0, repo_root@, *files)
                } else {
                    e.is_header_fault(config.rust_header()->0, repo_root@, *files)
                },
            },
    {
        let kotlin = match load_header(&config.ktfmt_header(), repo_root, files, year) {
            Ok(h) => h,
            Err(e) => {
                return Err(e);
            },
        };
        let java = match load_header(&config.gjf_header(), repo_root, files, year) {
            Ok(h) => h,
            Err(e) => {
                return Err(e);
            },
        };
        let rust = match load_header(&config.rustfmt_header(), repo_root, files, year) {
            Ok(h) => h,
            Err(e) => {
                return Err(e);
            },
        };
        Ok(Headers { kotlin, java, rust })
    }

    pub open spec fn of_kind(self, kind: SourceKind) -> Option<HeaderSpec> {
        match kind {
            SourceKind::Kotlin | SourceKind::Kts => self.kotlin,
            SourceKind::Java => self.java,
            SourceKind::Rust => self.rust,
        }
    }

    /// The header of a kind of source.
    pub fn for_kind(&self, kind: SourceKind) -> (r: Option<&HeaderSpec>)
        ensures
            match r {
                Some(h) => self.of_kind(kind) == Some(*h),
                None => self.of_kind(kind) is None,
            },
    {
        match kind {
            SourceKind::Kotlin | SourceKind::Kts => self.kotlin.as_ref(),
            SourceKind::Java => self.java.as_ref(),
            SourceKind::Rust => self.rust.as_ref(),
        }
    }
}

/// The text with the header on top, unless it has one.
pub open spec fn headed(s: Seq<char>, kind: SourceKind, header: Option<(Seq<char>, Seq<char>)>) -> Seq<
    char,
> {
    match header {
        Some((rendered, marker)) => if license::marked(s, marker) {
            s
        } else {
            license::with_header(s, rendered, kind)
        },
        None => s,
    }
}

/// A header is to be put on top of the text.
pub open spec fn lacks_header(s: Seq<char>, header: Option<(Seq<char>, Seq<char>)>) -> bool {
    header matches Some((_, marker)) && !license::marked(s, marker)
}

/// The text after the steps.
pub open spec fn processed(
    s: Seq<char>,
    kind: SourceKind,
    header: Option<(Seq<char>, Seq<char>)>,
    ws: whitespace::Options,
) -> Seq<char> {
    whitespace::fixed(headed(s, kind, header), ws)
}

/// What the steps do to the text.
pub open spec fn report_of(
    s: Seq<char>,
    kind: SourceKind,
    header: Option<(Seq<char>, Seq<char>)>,
    ws: whitespace::Options,
) -> FileReport {
    let found = whitespace::issues(headed(s, kind, header), ws);
    FileReport {
        header_added: lacks_header(s, header),
        whitespace_fixed: found.trailing_whitespace || found.missing_final_newline,
    }
}

/// The characters of an optional header and marker.
pub open spec fn header_view(header: Option<(&str, &str)>) -> Option<(Seq<char>, Seq<char>)> {
    match header {
        Some((rendered, marker)) => Some((rendered@, marker@)),
        None => None,
    }
}

/// Applies the steps to the text of a file: puts the header (the rendered text
/// and its marker) on top where it is missing, then runs the whitespace passes.
pub fn process_content(
    content: &str,
    kind: SourceKind,
    header: Option<(&str, &str)>,
    ws: whitespace::Options,
) -> (r: (String, FileReport))
    ensures
        r.0@ == processed(content@, kind, header_view(header), ws),
        r.1 == report_of(content@, kind, header_view(header), ws),
{
    let mut report = FileReport::default();
    let mut current = content.to_owned();
    if let Some((rendered, marker)) = header {
        if !license::has_header(content, marker) {
            current = license::insert_header(content, rendered, kind);
            report.header_added = true;
        }
    }
    let ghost s = headed(content@, kind, header_view(header));
    assert(current@ == s);
    if (ws.strip_trailing || ws.final_newline) && whitespace::diagnose(&current, ws).any() {
        current = whitespace::fix(&current, ws);
        report.whitespace_fixed = true;
    } else {
        proof {
            whitespace::fix_keeps_clean_text(s, ws);
        }
    }
    (current, report)
}

/// A file that is not reported as changed keeps its text.
pub proof fn unreported_files_stay(
    s: Seq<char>,
    kind: SourceKind,
    header: Option<(Seq<char>, Seq<char>)>,
    ws: whitespace::Options,
)
    requires
        !report_of(s, kind, header, ws).any(),
    ensures
        processed(s, kind, header, ws) == s,
{
    whitespace::fix_keeps_clean_text(s, ws);
}

/// The whitespace passes leave a marker where it was, unless it ends with blanks.
pub proof fn fix_keeps_marker(s: Seq<char>, ws: whitespace::Options, m: Seq<char>)
    requires
        license::marked(s, m),
        !whitespace::is_blank(m.last()),
    ensures
        license::marked(whitespace::fixed(s, ws), m),
{
    let pieces = chars::split(s, '\n');
    chars::lemma_split_nonempty(s, '\n');
    let i = choose|i: int|
        0 <= i < chars::lines(s).len() && i < license::HEADER_SCAN_LINES && chars::contains(
            #[trigger] chars::lines(s)[i],
            m,
        );
    let p = pieces[i];
    assert(chars::contains(p, m)) by {
        let line = chars::lines(s)[i];
        if line != p {
            let e = Seq::<char>::empty();
            chars::lemma_contains_widen(e, line, seq!['\r'], m);
            assert(e + line + seq!['\r'] =~= p);
        }
    }
    let body = if ws.strip_trailing {
        whitespace::stripped(s)
    } else {
        s
    };
    let bodies = chars::split(body, '\n');
    if ws.strip_trailing {
        whitespace::strip_goes_line_by_line(s);
        chars::lemma_split_pieces(s, '\n');
        whitespace::lemma_stripped_line(p);
        let q = whitespace::stripped(p);
        let j = choose|j: int| chars::occurs_at(p, m, j);
        assert(p[j + m.len() - 1] == m.last()) by {
            assert(p.subrange(j, j + m.len())[m.len() - 1] == p[j + m.len() - 1]);
        }
        assert(j + m.len() <= q.len());
        assert(q.subrange(j, j + m.len()) =~= p.subrange(j, j + m.len()));
        assert(chars::occurs_at(q, m, j));
        assert(bodies[i] == q);
    }
    assert(chars::contains(bodies[i], m));
    if whitespace::fixed(s, ws) == body {
        license::lemma_piece_is_marked(body, i, m);
    } else {
        let e = Seq::<char>::empty();
        assert(bodies[i].len() > 0) by {
            let j = choose|j: int| chars::occurs_at(bodies[i], m, j);
        }
        whitespace::lemma_unended_pieces(body, i);
        let kept = whitespace::unended(body);
        chars::lemma_split_append(kept, '\n', e);
        assert(kept.push('\n') + e =~= kept.push('\n'));
        assert(chars::split(kept.push('\n'), '\n')[i] == bodies[i]);
        license::lemma_piece_is_marked(kept.push('\n'), i, m);
    }
}

/// Formatting is idempotent: on its own output, with a header that its marker
/// finds, it has nothing left to do.
pub proof fn process_is_idempotent(
    s: Seq<char>,
    kind: SourceKind,
    header: Option<(Seq<char>, Seq<char>)>,
    ws: whitespace::Options,
)
    requires
        header matches Some((rendered, marker)) ==> license::marked(rendered, marker)
            && !whitespace::is_blank(marker.last()),
    ensures
        !report_of(processed(s, kind, header, ws), kind, header, ws).any(),
        processed(processed(s, kind, header, ws), kind, header, ws) == processed(
            s,
            kind,
            header,
            ws,
        ),
{
    let t = headed(s, kind, header);
    let out = processed(s, kind, header, ws);
    match header {
        Some((rendered, marker)) => {
            if !license::marked(s, marker) {
                license::insertion_is_recognized(s, rendered, kind, marker);
            }
            fix_keeps_marker(t, ws, marker);
        },
        None => {},
    }
    whitespace::fix_leaves_no_issue(t, ws);
    unreported_files_stay(out, kind, header, ws);
}

/// With a header from a template of no more lines than are looked at, formatting
/// is idempotent for every text and year, and a header of another year counts.
pub proof fn template_headers_are_idempotent(
    template: Seq<char>,
    year: nat,
    other_year: nat,
    s: Seq<char>,
    kind: SourceKind,
    ws: whitespace::Options,
)
    requires
        chars::lines(template).len() <= license::HEADER_SCAN_LINES,
        license::marker(template).len() > 0,
    ensures
        ({
            let m = license::marker(template);
            let out = processed(s, kind, Some((license::rendered(template, year), m)), ws);
            let again = Some((license::rendered(template, other_year), m));
            !report_of(out, kind, again, ws).any() && processed(out, kind, again, ws) == out
        }),
{
    let m = license::marker(template);
    let header = Some((license::rendered(template, year), m));
    let again = Some((license::rendered(template, other_year), m));
    let out = processed(s, kind, header, ws);
    license::short_template_is_recognized(template, year);
    let i = license::marker_comes_from_a_line(template);
    let t = headed(s, kind, header);
    if !license::marked(s, m) {
        license::insertion_is_recognized(s, license::rendered(template, year), kind, m);
    }
    fix_keeps_marker(t, ws, m);
    whitespace::fix_leaves_no_issue(t, ws);
    unreported_files_stay(out, kind, again, ws);
}

/// A file without a header setting keeps its text, and so does one that has the
/// header; any other begins with the header.
pub proof fn headers_go_onto_texts_that_lack_them(
    s: Seq<char>,
    kind: SourceKind,
    rendered: Seq<char>,
    marker: Seq<char>,
)
    ensures
        headed(s, kind, None) == s,
        !lacks_header(s, None),
        license::marked(s, marker) ==> headed(s, kind, Some((rendered, marker))) == s,
        !license::marked(s, marker) ==> headed(s, kind, Some((rendered, marker)))
            == license::with_header(s, rendered, kind) && chars::starts_with(
            headed(s, kind, Some((rendered, marker))),
            rendered,
        ),
        lacks_header(s, Some((rendered, marker))) <==> !license::marked(s, marker),
{
    license::insertion_keeps_content(s, rendered, kind);
}

/// The report of a file says that something was done just where its text came
/// out otherwise: a header where it lacked one, and whitespace where the passes
/// changed what the header step left.
pub proof fn reports_say_what_changed(
    s: Seq<char>,
    kind: SourceKind,
    header: Option<(Seq<char>, Seq<char>)>,
    ws: whitespace::Options,
)
    requires
        header matches Some((rendered, marker)) ==> license::marked(rendered, marker)
            && !whitespace::is_blank(marker.last()),
    ensures
        report_of(s, kind, header, ws).any() <==> processed(s, kind, header, ws) != s,
        report_of(s, kind, header, ws).header_added <==> (header matches Some((_, marker))
            && !license::marked(s, marker)),
        report_of(s, kind, header, ws).whitespace_fixed <==> whitespace::fixed(
            headed(s, kind, header),
            ws,
        ) != headed(s, kind, header),
{
    let t = headed(s, kind, header);
    whitespace::fix_changes_iff_issue(t, ws);
    if !report_of(s, kind, header, ws).any() {
        unreported_files_stay(s, kind, header, ws);
    } else if lacks_header(s, header) {
        match header {
            Some((rendered, marker)) => {
                license::insertion_is_recognized(s, rendered, kind, marker);
                fix_keeps_marker(t, ws, marker);
            },
            None => {},
        }
    }
}

/// The excludes of a header are the lines of its file that say something; there
/// are none without a file, set or found, and one that cannot be read is an
/// error.
pub proof fn excludes_come_from_their_file(p: Seq<char>, root: Seq<char>, files: FileTexts)
    ensures
        exclude_patterns(None, root, files) == Some(Seq::<Seq<char>>::empty()),
        files.at(fspath::joined(root, p)) is Missing ==> exclude_patterns(Some(p), root, files)
            == Some(Seq::<Seq<char>>::empty()),
        files.at(fspath::joined(root, p)) is Unreadable <==> exclude_patterns(
            Some(p),
            root,
            files,
        ) is None,
        files.at(fspath::joined(root, p)) matches Reading::Text(t) ==> exclude_patterns(
            Some(p),
            root,
            files,
        ) == Some(
            chars::lines(t).map_values(|l: Seq<char>| chars::trim(l)).filter(
                |l: Seq<char>| l.len() > 0 && l[0] != '#',
            ),
        ),
{
    if let Reading::Text(t) = files.at(fspath::joined(root, p)) {
        snapshot::entries_are_trimmed_lines(chars::lines(t));
    }
}

/// The headers of a configuration can be used just where the template of each
/// language that has one can be read, and its excludes are patterns, of which
/// there need be none.
pub proof fn headers_load_where_their_files_do(
    config: Config,
    root: Seq<char>,
    files: FileTexts,
    header: (Seq<char>, Option<Seq<char>>),
)
    ensures
        header_loads(header, root, files) <==> files.at(fspath::joined(root, header.0)) is Text
            && exclude_patterns(header.1, root, files) is Some && (exclude_patterns(
            header.1,
            root,
            files,
        )->0.len() > 0 ==> globs::well_formed(exclude_patterns(header.1, root, files)->0)),
        Headers::load_all(config, root, files) <==> {
            &&& config.kotlin_header() is Some ==> header_loads(
                config.kotlin_header()->0,
                root,
                files,
            )
            &&& config.java_header() is Some ==> header_loads(config.java_header()->0, root, files)
            &&& config.rust_header() is Some ==> header_loads(config.rust_header()->0, root, files)
        },
{
}

/// The header of a language is there just where the configuration has one, and
/// is the template rendered for the year, known by the marker of the template.
pub proof fn headers_are_rendered_templates(
    headers: Headers,
    config: Config,
    root: Seq<char>,
    files: FileTexts,
    year: nat,
)
    requires
        headers.are_made_from(config, root, files, year),
    ensures
        headers.kotlin is Some <==> config.kotlin_header() is Some,
        headers.java is Some <==> config.java_header() is Some,
        headers.rust is Some <==> config.rust_header() is Some,
        headers.kotlin matches Some(h) ==> (files.at(
            fspath::joined(root, (config.kotlin_header()->0).0),
        ) matches Reading::Text(t) && h.rendered@ == license::rendered(t, year) && h.marker@
            == license::marker(t)),
        headers.java matches Some(h) ==> (files.at(
            fspath::joined(root, (config.java_header()->0).0),
        ) matches Reading::Text(t) && h.rendered@ == license::rendered(t, year) && h.marker@
            == license::marker(t)),
        headers.rust matches Some(h) ==> (files.at(
            fspath::joined(root, (config.rust_header()->0).0),
        ) matches Reading::Text(t) && h.rendered@ == license::rendered(t, year) && h.marker@
            == license::marker(t)),
        headers.kotlin matches Some(h) ==> exclude_patterns(
            (config.kotlin_header()->0).1,
            root,
            files,
        ) == Some(globs::set_patterns(h.excludes)),
        headers.java matches Some(h) ==> exclude_patterns((config.java_header()->0).1, root, files)
            == Some(globs::set_patterns(h.excludes)),
        headers.rust matches Some(h) ==> exclude_patterns((config.rust_header()->0).1, root, files)
            == Some(globs::set_patterns(h.excludes)),
{
}

} // verus!
