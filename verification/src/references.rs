//! The text files that a configuration points to.

use crate::chars;
use crate::commands;
use crate::config::Config;
use crate::config::Detekt;
use crate::config::DetektTarget;
use crate::config::GlobList;
use crate::config::PathList;
use crate::config::ResolvedHeader;
use crate::config::ToolPaths;
use crate::config::VersionSpec;
use crate::fspath;
use crate::pipeline;
use crate::snapshot::FileTexts;
use crate::text;
use vstd::prelude::*;

verus! {

/// The file of an optional path.
pub open spec fn file_at(root: Seq<char>, path: Option<Seq<char>>) -> Seq<Seq<char>> {
    match path {
        Some(p) => seq![fspath::joined(root, p)],
        None => Seq::empty(),
    }
}

/// The file of a list of patterns.
pub open spec fn list_file(root: Seq<char>, list: Option<GlobList>) -> Seq<Seq<char>> {
    match list {
        Some(GlobList::FromFile(p)) => file_at(root, Some(p@)),
        _ => Seq::empty(),
    }
}

/// The file of a list of paths.
pub open spec fn path_list_file(root: Seq<char>, list: Option<PathList>) -> Seq<Seq<char>> {
    match list {
        Some(PathList::FromFile(p)) => file_at(root, Some(p@)),
        _ => Seq::empty(),
    }
}

/// The files of a scope.
pub open spec fn scope_files(root: Seq<char>, paths: Option<ToolPaths>) -> Seq<Seq<char>> {
    match paths {
        Some(p) => list_file(root, p.includes) + list_file(root, p.exclude),
        None => Seq::empty(),
    }
}

/// The catalog of a version.
pub open spec fn catalog_file(root: Seq<char>, version: Option<VersionSpec>) -> Seq<Seq<char>> {
    match version {
        Some(VersionSpec::Ref(r)) => seq![r.catalog_path(root)],
        _ => Seq::empty(),
    }
}

/// The files of a header.
pub open spec fn header_files(
    root: Seq<char>,
    header: Option<(Seq<char>, Option<Seq<char>>)>,
) -> Seq<Seq<char>> {
    match header {
        Some((file, excludes)) => file_at(root, Some(file)) + file_at(root, excludes),
        None => Seq::empty(),
    }
}

/// The files of detekt's targets.
pub open spec fn target_files(root: Seq<char>, targets: Seq<DetektTarget>) -> Seq<Seq<char>>
    decreases targets.len(),
{
    if targets.len() == 0 {
        Seq::empty()
    } else {
        let t = targets.last();
        target_files(root, targets.drop_last()) + scope_files(root, t.paths) + path_list_file(
            root,
            t.classpath,
        )
    }
}

/// The files of detekt.
pub open spec fn detekt_files(root: Seq<char>, detekt: Option<Detekt>) -> Seq<Seq<char>> {
    match detekt {
        Some(d) => scope_files(root, d.paths) + path_list_file(root, d.classpath) + target_files(
            root,
            d.targets@,
        ),
        None => Seq::empty(),
    }
}

impl Config {
    pub open spec fn ktfmt_paths(self) -> Option<ToolPaths> {
        match self.ktfmt {
            Some(k) => k.paths,
            None => None,
        }
    }

    pub open spec fn gjf_paths(self) -> Option<ToolPaths> {
        match self.gjf {
            Some(g) => g.paths,
            None => None,
        }
    }

    pub open spec fn rustfmt_paths(self) -> Option<ToolPaths> {
        match self.rustfmt {
            Some(r) => r.paths,
            None => None,
        }
    }

    /// The catalogs that versions refer to.
    pub open spec fn catalog_files(self, root: Seq<char>) -> Seq<Seq<char>> {
        catalog_file(root, self.ktfmt_version()) + catalog_file(root, self.gjf_version())
            + catalog_file(root, self.detekt_version())
    }

    /// The lists of patterns and the headers.
    pub open spec fn run_files(self, root: Seq<char>) -> Seq<Seq<char>> {
        list_file(root, Some(self.paths.exclude)) + scope_files(root, self.ktfmt_paths())
            + scope_files(root, self.gjf_paths()) + scope_files(root, self.rustfmt_paths())
            + scope_files(root, self.whitespace.paths) + header_files(root, self.kotlin_header())
            + header_files(root, self.java_header()) + header_files(root, self.rust_header())
    }

    /// All text files that the configuration points to.
    pub open spec fn text_files(self, root: Seq<char>) -> Seq<Seq<char>> {
        self.catalog_files(root) + self.run_files(root) + detekt_files(root, self.detekt)
    }
}

fn add_file(out: &mut Vec<String>, root: &str, path: &str)
    ensures
        chars::views(final(out)@) == chars::views(old(out)@) + file_at(root@, Some(path@)),
{
    let ghost before = chars::views(out@);
    let f = fspath::join(root, path);
    let ghost fv = f@;
    out.push(f);
    assert(chars::views(out@) =~= before + seq![fv]);
}

proof fn lemma_nothing_added(s: Seq<Seq<char>>)
    ensures
        s + Seq::<Seq<char>>::empty() == s,
{
    assert(s + Seq::<Seq<char>>::empty() =~= s);
}

fn add_list(out: &mut Vec<String>, root: &str, list: &GlobList)
    ensures
        chars::views(final(out)@) == chars::views(old(out)@) + list_file(root@, Some(*list)),
{
    proof {
        lemma_nothing_added(chars::views(out@));
    }
    if let GlobList::FromFile(p) = list {
        add_file(out, root, p);
    }
}

fn add_path_list(out: &mut Vec<String>, root: &str, list: &Option<PathList>)
    ensures
        chars::views(final(out)@) == chars::views(old(out)@) + path_list_file(root@, *list),
{
    proof {
        lemma_nothing_added(chars::views(out@));
    }
    if let Some(PathList::FromFile(p)) = list {
        add_file(out, root, p);
    }
}

fn add_scope(out: &mut Vec<String>, root: &str, paths: &Option<ToolPaths>)
    ensures
        chars::views(final(out)@) == chars::views(old(out)@) + scope_files(root@, *paths),
{
    let ghost start = chars::views(out@);
    proof {
        lemma_nothing_added(start);
    }
    if let Some(p) = paths {
        if let Some(g) = &p.includes {
            add_list(out, root, g);
        }
        assert(chars::views(out@) == start + list_file(root@, p.includes));
        proof {
            lemma_nothing_added(chars::views(out@));
        }
        if let Some(g) = &p.exclude {
            add_list(out, root, g);
        }
        assert(start + list_file(root@, p.includes) + list_file(root@, p.exclude) =~= start + (
        list_file(root@, p.includes) + list_file(root@, p.exclude)));
    }
}

fn add_catalog(out: &mut Vec<String>, root: &str, version: &Option<VersionSpec>)
    ensures
        chars::views(final(out)@) == chars::views(old(out)@) + catalog_file(root@, *version),
{
    proof {
        lemma_nothing_added(chars::views(out@));
    }
    if let Some(VersionSpec::Ref(r)) = version {
        add_file(out, root, &r.file);
    }
}

fn add_header(out: &mut Vec<String>, root: &str, header: &Option<ResolvedHeader>)
    ensures
        chars::views(final(out)@) == chars::views(old(out)@) + header_files(
            root@,
            crate::config::opt_parts(*header),
        ),
{
    let ghost start = chars::views(out@);
    proof {
        lemma_nothing_added(start);
    }
    if let Some(h) = header {
        add_file(out, root, &h.file);
        let ghost first = file_at(root@, Some(h.file@));
        proof {
            lemma_nothing_added(chars::views(out@));
        }
        if let Some(e) = &h.excludes {
            add_file(out, root, e);
        }
        let ghost second = file_at(root@, chars::opt_view(h.excludes));
        assert(start + first + second =~= start + (first + second));
    }
}

fn add_targets(out: &mut Vec<String>, root: &str, targets: &Vec<DetektTarget>)
    ensures
        chars::views(final(out)@) == chars::views(old(out)@) + target_files(root@, targets@),
{
    let ghost start = chars::views(out@);
    let mut i: usize = 0;
    assert(start + target_files(root@, targets@.take(0)) =~= start);
    while i < targets.len()
        invariant
            i <= targets.len(),
            chars::views(out@) == start + target_files(root@, targets@.take(i as int)),
        decreases targets.len() - i,
    {
        let ghost done = target_files(root@, targets@.take(i as int));
        let ghost t = targets@[i as int];
        assert(targets@.take(i + 1).drop_last() =~= targets@.take(i as int));
        add_scope(out, root, &targets[i].paths);
        add_path_list(out, root, &targets[i].classpath);
        assert(start + done + scope_files(root@, t.paths) + path_list_file(root@, t.classpath)
            =~= start + (done + scope_files(root@, t.paths) + path_list_file(root@, t.classpath)));
        i += 1;
    }
    assert(targets@.take(i as int) =~= targets@);
}

fn list_catalogs(config: &Config, root: &str) -> (r: Vec<String>)
    ensures
        chars::views(r@) == config.catalog_files(root@),
{
    let mut out: Vec<String> = Vec::new();
    if let Some(k) = &config.ktfmt {
        add_catalog(&mut out, root, &k.version);
    }
    assert(chars::views(out@) =~= catalog_file(root@, config.ktfmt_version()));
    proof {
        lemma_nothing_added(chars::views(out@));
    }
    if let Some(g) = &config.gjf {
        add_catalog(&mut out, root, &g.version);
    }
    proof {
        lemma_nothing_added(chars::views(out@));
    }
    if let Some(d) = &config.detekt {
        add_catalog(&mut out, root, &d.version);
    }
    out
}

fn list_run_files(config: &Config, root: &str) -> (r: Vec<String>)
    ensures
        chars::views(r@) == config.run_files(root@),
{
    let mut out: Vec<String> = Vec::new();
    add_list(&mut out, root, &config.paths.exclude);
    assert(chars::views(out@) =~= list_file(root@, Some(config.paths.exclude)));
    proof {
        lemma_nothing_added(chars::views(out@));
    }
    if let Some(k) = &config.ktfmt {
        add_scope(&mut out, root, &k.paths);
    }
    proof {
        lemma_nothing_added(chars::views(out@));
    }
    if let Some(g) = &config.gjf {
        add_scope(&mut out, root, &g.paths);
    }
    proof {
        lemma_nothing_added(chars::views(out@));
    }
    if let Some(r) = &config.rustfmt {
        add_scope(&mut out, root, &r.paths);
    }
    add_scope(&mut out, root, &config.whitespace.paths);
    add_header(&mut out, root, &config.ktfmt_header());
    add_header(&mut out, root, &config.gjf_header());
    add_header(&mut out, root, &config.rustfmt_header());
    out
}

/// Lists the text files that a configuration points to.
pub fn list_text_files(config: &Config, repo_root: &str) -> (r: Vec<String>)
    ensures
        chars::views(r@) == config.text_files(repo_root@),
{
    let mut out = list_catalogs(config, repo_root);
    text::append(&mut out, &list_run_files(config, repo_root));
    let ghost start = chars::views(out@);
    proof {
        lemma_nothing_added(start);
    }
    if let Some(d) = &config.detekt {
        add_scope(&mut out, repo_root, &d.paths);
        add_path_list(&mut out, repo_root, &d.classpath);
        add_targets(&mut out, repo_root, &d.targets);
        assert(chars::views(out@) =~= start + detekt_files(repo_root@, config.detekt));
    }
    out
}

/// The two readings agree on the files.
pub open spec fn agree(a: FileTexts, b: FileTexts, files: Seq<Seq<char>>) -> bool {
    forall|p: Seq<char>| #[trigger] files.contains(p) ==> a.at(p) == b.at(p)
}

proof fn lemma_agree_parts(a: FileTexts, b: FileTexts, s: Seq<Seq<char>>, t: Seq<Seq<char>>)
    requires
        agree(a, b, s + t),
    ensures
        agree(a, b, s),
        agree(a, b, t),
{
    assert forall|p: Seq<char>| #[trigger] s.contains(p) implies a.at(p) == b.at(p) by {
        let i = choose|i: int| 0 <= i < s.len() && s[i] == p;
        assert((s + t)[i] == p);
        assert((s + t).contains(p));
    }
    assert forall|p: Seq<char>| #[trigger] t.contains(p) implies a.at(p) == b.at(p) by {
        let i = choose|i: int| 0 <= i < t.len() && t[i] == p;
        assert((s + t)[s.len() + i] == p);
        assert((s + t).contains(p));
    }
}

proof fn lemma_file_agrees(a: FileTexts, b: FileTexts, root: Seq<char>, path: Seq<char>)
    requires
        agree(a, b, file_at(root, Some(path))),
    ensures
        a.at(fspath::joined(root, path)) == b.at(fspath::joined(root, path)),
{
    let f = file_at(root, Some(path));
    assert(f[0] == fspath::joined(root, path));
    assert(f.contains(fspath::joined(root, path)));
}

proof fn lemma_list_agrees(a: FileTexts, b: FileTexts, root: Seq<char>, list: GlobList)
    requires
        agree(a, b, list_file(root, Some(list))),
    ensures
        list.patterns(root, a) == list.patterns(root, b),
{
    if let GlobList::FromFile(p) = list {
        lemma_file_agrees(a, b, root, p@);
    }
}

proof fn lemma_scope_agrees(
    a: FileTexts,
    b: FileTexts,
    root: Seq<char>,
    paths: Option<ToolPaths>,
    default_includes: Seq<Seq<char>>,
)
    requires
        agree(a, b, scope_files(root, paths)),
    ensures
        crate::config::scope_or_default(paths, root, a, default_includes)
            == crate::config::scope_or_default(paths, root, b, default_includes),
{
    if let Some(p) = paths {
        lemma_agree_parts(a, b, list_file(root, p.includes), list_file(root, p.exclude));
        if let Some(g) = p.includes {
            lemma_list_agrees(a, b, root, g);
        }
        if let Some(g) = p.exclude {
            lemma_list_agrees(a, b, root, g);
        }
    }
}

proof fn lemma_header_agrees(
    a: FileTexts,
    b: FileTexts,
    root: Seq<char>,
    header: Option<(Seq<char>, Option<Seq<char>>)>,
)
    requires
        agree(a, b, header_files(root, header)),
    ensures
        pipeline::opt_header_loads(header, root, a) == pipeline::opt_header_loads(header, root, b),
        header matches Some(p) ==> pipeline::exclude_patterns(p.1, root, a)
            == pipeline::exclude_patterns(p.1, root, b),
        forall|h: Option<pipeline::HeaderSpec>, year: nat| #[trigger]
            pipeline::is_header_for(h, header, root, a, year) == pipeline::is_header_for(
                h,
                header,
                root,
                b,
                year,
            ),
{
    if let Some((file, excludes)) = header {
        lemma_agree_parts(a, b, file_at(root, Some(file)), file_at(root, excludes));
        lemma_file_agrees(a, b, root, file);
        if let Some(e) = excludes {
            lemma_file_agrees(a, b, root, e);
        }
    }
}

proof fn lemma_formattable_agrees(
    config: Config,
    root: Seq<char>,
    a: FileTexts,
    b: FileTexts,
    files: Seq<Seq<char>>,
)
    requires
        forall|p: Seq<char>| #[trigger] config.formats(root, a, p) == config.formats(root, b, p),
    ensures
        commands::formattable(config, root, a, files) == commands::formattable(
            config,
            root,
            b,
            files,
        ),
    decreases files.len(),
{
    if files.len() > 0 {
        lemma_formattable_agrees(config, root, a, b, files.drop_last());
    }
}

/// Of all files, a run depends on the listed ones alone: readings that agree on
/// them give the same candidates, the same files to be formatted, whether there
/// can be a plan, and plans.
pub proof fn runs_read_listed_files_only(
    config: Config,
    root: Seq<char>,
    a: FileTexts,
    b: FileTexts,
    universe: Seq<Seq<char>>,
    files: Seq<Seq<char>>,
    plan: commands::RunPlan,
    forced: bool,
    year: nat,
)
    requires
        agree(a, b, config.text_files(root)),
    ensures
        commands::candidates_of(universe, forced, config, root, a) == commands::candidates_of(
            universe,
            forced,
            config,
            root,
            b,
        ),
        commands::can_plan(config, root, a) == commands::can_plan(config, root, b),
        commands::formattable(config, root, a, files) == commands::formattable(
            config,
            root,
            b,
            files,
        ),
        plan.is_for(config, root, a, files, forced, year) ==> plan.is_for(
            config,
            root,
            b,
            files,
            forced,
            year,
        ),
{
    let s0 = list_file(root, Some(config.paths.exclude));
    let s1 = s0 + scope_files(root, config.ktfmt_paths());
    let s2 = s1 + scope_files(root, config.gjf_paths());
    let s3 = s2 + scope_files(root, config.rustfmt_paths());
    let s4 = s3 + scope_files(root, config.whitespace.paths);
    let s5 = s4 + header_files(root, config.kotlin_header());
    let s6 = s5 + header_files(root, config.java_header());
    lemma_agree_parts(
        a,
        b,
        config.catalog_files(root) + config.run_files(root),
        detekt_files(root, config.detekt),
    );
    lemma_agree_parts(a, b, config.catalog_files(root), config.run_files(root));
    lemma_agree_parts(a, b, s6, header_files(root, config.rust_header()));
    lemma_agree_parts(a, b, s5, header_files(root, config.java_header()));
    lemma_agree_parts(a, b, s4, header_files(root, config.kotlin_header()));
    lemma_agree_parts(a, b, s3, scope_files(root, config.whitespace.paths));
    lemma_agree_parts(a, b, s2, scope_files(root, config.rustfmt_paths()));
    lemma_agree_parts(a, b, s1, scope_files(root, config.gjf_paths()));
    lemma_agree_parts(a, b, s0, scope_files(root, config.ktfmt_paths()));
    lemma_list_agrees(a, b, root, config.paths.exclude);
    let kotlin = crate::config::kotlin_patterns();
    let java = crate::config::java_patterns();
    let rust = crate::config::rust_patterns();
    let all = crate::config::source_patterns();
    lemma_scope_agrees(a, b, root, config.ktfmt_paths(), kotlin);
    lemma_scope_agrees(a, b, root, config.gjf_paths(), java);
    lemma_scope_agrees(a, b, root, config.rustfmt_paths(), rust);
    lemma_scope_agrees(a, b, root, config.whitespace.paths, all);
    lemma_header_agrees(a, b, root, config.kotlin_header());
    lemma_header_agrees(a, b, root, config.java_header());
    lemma_header_agrees(a, b, root, config.rust_header());
    assert(config.ktfmt_scope(root, a) == config.ktfmt_scope(root, b));
    assert(config.gjf_scope(root, a) == config.gjf_scope(root, b));
    assert(config.rustfmt_scope(root, a) == config.rustfmt_scope(root, b));
    assert(config.whitespace_scope(root, a) == config.whitespace_scope(root, b));
    lemma_formattable_agrees(config, root, a, b, files);
    if plan.is_for(config, root, a, files, forced, year) {
        let ws = crate::whitespace::Options {
            strip_trailing: config.whitespace.strip_trailing,
            final_newline: config.whitespace.final_newline,
        };
        let (h, s) = choose|h: pipeline::Headers, s: commands::ToolScopes|
            h.are_made_from(config, root, a, year) && s.are_for(config, root, a, forced)
                && #[trigger] plan.follows(h, s, ws, root, files);
        assert(h.are_made_from(config, root, b, year));
        assert(s.are_for(config, root, b, forced));
        assert(plan.follows(h, s, ws, root, files));
    }
}

/// Of all files, the versions of the tools and the settings of detekt depend on
/// the listed ones alone.
pub proof fn settings_read_listed_files_only(
    config: Config,
    root: Seq<char>,
    a: FileTexts,
    b: FileTexts,
    i: int,
)
    requires
        agree(a, b, config.text_files(root)),
    ensures
        config.ktfmt_version() matches Some(VersionSpec::Ref(r)) ==> r.target(root, a, "ktfmt"@)
            == r.target(root, b, "ktfmt"@),
        config.gjf_version() matches Some(VersionSpec::Ref(r)) ==> r.target(root, a, "gjf"@)
            == r.target(root, b, "gjf"@),
        config.detekt_version() matches Some(VersionSpec::Ref(r)) ==> r.target(root, a, "detekt"@)
            == r.target(root, b, "detekt"@),
        config.detekt matches Some(d) ==> d.resolves(None, root, a) == d.resolves(None, root, b),
        config.detekt matches Some(d) ==> (0 <= i < d.targets@.len() ==> d.resolves(
            Some(&d.targets@[i]),
            root,
            a,
        ) == d.resolves(Some(&d.targets@[i]), root, b)),
{
    let kt = catalog_file(root, config.ktfmt_version());
    let gjf = catalog_file(root, config.gjf_version());
    let detekt = catalog_file(root, config.detekt_version());
    lemma_agree_parts(
        a,
        b,
        config.catalog_files(root) + config.run_files(root),
        detekt_files(root, config.detekt),
    );
    lemma_agree_parts(a, b, config.catalog_files(root), config.run_files(root));
    lemma_agree_parts(a, b, kt + gjf, detekt);
    lemma_agree_parts(a, b, kt, gjf);
    lemma_catalog_agrees(a, b, root, config.ktfmt_version());
    lemma_catalog_agrees(a, b, root, config.gjf_version());
    lemma_catalog_agrees(a, b, root, config.detekt_version());
    if let Some(d) = config.detekt {
        let own = scope_files(root, d.paths) + path_list_file(root, d.classpath);
        lemma_agree_parts(a, b, own, target_files(root, d.targets@));
        lemma_agree_parts(
            a,
            b,
            scope_files(root, d.paths),
            path_list_file(root, d.classpath),
        );
        let kotlin = crate::config::kotlin_patterns();
        lemma_scope_agrees(a, b, root, d.paths, kotlin);
        lemma_path_list_agrees(a, b, root, d.classpath);
        if 0 <= i < d.targets@.len() {
            let t = d.targets@[i];
            lemma_target_agrees(a, b, root, d.targets@, i);
            lemma_scope_agrees(a, b, root, t.paths, kotlin);
            lemma_path_list_agrees(a, b, root, t.classpath);
        }
    }
}

proof fn lemma_catalog_agrees(
    a: FileTexts,
    b: FileTexts,
    root: Seq<char>,
    version: Option<VersionSpec>,
)
    requires
        agree(a, b, catalog_file(root, version)),
    ensures
        version matches Some(VersionSpec::Ref(r)) ==> a.at(r.catalog_path(root)) == b.at(
            r.catalog_path(root),
        ),
{
    if let Some(VersionSpec::Ref(r)) = version {
        let f = catalog_file(root, version);
        assert(f[0] == r.catalog_path(root));
        assert(f.contains(r.catalog_path(root)));
    }
}

proof fn lemma_path_list_agrees(
    a: FileTexts,
    b: FileTexts,
    root: Seq<char>,
    list: Option<PathList>,
)
    requires
        agree(a, b, path_list_file(root, list)),
    ensures
        list matches Some(l) ==> l.listed(root, a) == l.listed(root, b),
{
    if let Some(PathList::FromFile(p)) = list {
        lemma_file_agrees(a, b, root, p@);
    }
}

proof fn lemma_target_agrees(
    a: FileTexts,
    b: FileTexts,
    root: Seq<char>,
    targets: Seq<DetektTarget>,
    i: int,
)
    requires
        0 <= i < targets.len(),
        agree(a, b, target_files(root, targets)),
    ensures
        agree(a, b, scope_files(root, targets[i].paths)),
        agree(a, b, path_list_file(root, targets[i].classpath)),
    decreases targets.len(),
{
    let t = targets.last();
    let rest = target_files(root, targets.drop_last());
    lemma_agree_parts(
        a,
        b,
        rest + scope_files(root, t.paths),
        path_list_file(root, t.classpath),
    );
    lemma_agree_parts(a, b, rest, scope_files(root, t.paths));
    if i < targets.len() - 1 {
        lemma_target_agrees(a, b, root, targets.drop_last(), i);
        assert(targets.drop_last()[i] == targets[i]);
    }
}

} // verus!
