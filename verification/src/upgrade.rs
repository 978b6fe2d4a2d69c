//! Bumping the versions in the configuration to the latest releases.
//!
//! The configuration is edited as a TOML document that keeps its comments and
//! formatting. Sections with `path` and versions that refer to a catalog are
//! left alone, with a note.

use crate::catalog;
use crate::catalog::TomlKind;
use crate::catalog::TomlNode;
use crate::chars;
use crate::text;
use vstd::prelude::*;

verus! {

#[verifier::external_type_specification]
#[verifier::external_body]
pub struct ExDocument(toml_edit::DocumentMut);

#[verifier::external_type_specification]
#[verifier::external_body]
pub struct ExItem(toml_edit::Item);

#[verifier::external_type_specification]
#[verifier::external_body]
pub struct ExDocumentError(toml_edit::TomlError);

#[verifier::external_type_specification]
#[verifier::external_body]
pub struct ExDecor(toml_edit::Decor);

/// The document that `toml_edit` reads from a text: what stands at each path of
/// keys, where tables and inline tables are the same. Nothing where the text is
/// no TOML.
pub uninterp spec fn edit_document(text: Seq<char>) -> Option<Map<Seq<Seq<char>>, TomlNode>>;

/// What stands before and after each value, spaces and comments, in the document
/// that `toml_edit` reads from a text.
pub uninterp spec fn edit_decor(text: Seq<char>) -> Map<
    Seq<Seq<char>>,
    (Option<Seq<char>>, Option<Seq<char>>),
>;

/// The text of a document that was read from `text`, with each of the values in
/// `edits` replaced in turn and with `decor` around the values.
pub uninterp spec fn edited_text(
    text: Seq<char>,
    edits: Seq<(Seq<Seq<char>>, Seq<char>)>,
    decor: Map<Seq<Seq<char>>, (Option<Seq<char>>, Option<Seq<char>>)>,
) -> Seq<char>;

/// What a document holds at each path of keys.
pub uninterp spec fn document_contents(doc: toml_edit::DocumentMut) -> Map<
    Seq<Seq<char>>,
    TomlNode,
>;

/// The text that a document was read from.
pub uninterp spec fn document_origin(doc: toml_edit::DocumentMut) -> Seq<char>;

/// The values of a document that were replaced since it was read: the path of
/// keys of each and its new text.
pub uninterp spec fn document_edits(doc: toml_edit::DocumentMut) -> Seq<
    (Seq<Seq<char>>, Seq<char>),
>;

/// What stands before and after each value of a document.
pub uninterp spec fn document_decor(doc: toml_edit::DocumentMut) -> Map<
    Seq<Seq<char>>,
    (Option<Seq<char>>, Option<Seq<char>>),
>;

/// What a `toml_edit::Decor` puts before and after a value; nothing where it
/// leaves that to the defaults.
pub uninterp spec fn decor_texts(decor: toml_edit::Decor) -> (Option<Seq<char>>, Option<Seq<char>>);

/// What an item holds at each path of keys, the empty path being the item
/// itself.
pub uninterp spec fn item_contents(item: toml_edit::Item) -> Map<Seq<Seq<char>>, TomlNode>;

/// `str::parse` into a `toml_edit::DocumentMut`: the document of the text, or an
/// error where it is no TOML.
#[verifier::external_body]
fn parse_document(text: &str) -> (r: Result<toml_edit::DocumentMut, toml_edit::TomlError>)
    ensures
        match r {
            Ok(d) => edit_document(text@) == Some(document_contents(d)) && document_origin(d)
                == text@ && document_edits(d) == Seq::<(Seq<Seq<char>>, Seq<char>)>::empty()
                && document_decor(d) == edit_decor(text@),
            Err(_) => edit_document(text@) is None,
        },
{
    text.parse()
}

/// `toml_edit::Table::get` on the root table: what stands below a key.
#[verifier::external_body]
fn get_section<'a>(doc: &'a toml_edit::DocumentMut, key: &str) -> (r: Option<&'a toml_edit::Item>)
    ensures
        match r {
            Some(i) => document_contents(*doc).dom().contains(seq![key@]) && item_contents(*i)
                == catalog::below(document_contents(*doc), key@),
            None => !document_contents(*doc).dom().contains(seq![key@]),
        },
{
    doc.get(key)
}

/// `toml_edit::Item::get` with a key: what stands below the key of a table or an
/// inline table, and nothing where there is no such key or no table.
#[verifier::external_body]
fn get_entry<'a>(item: &'a toml_edit::Item, key: &str) -> (r: Option<&'a toml_edit::Item>)
    ensures
        match r {
            Some(i) => item_contents(*item).dom().contains(seq![key@]) && item_contents(*i)
                == catalog::below(item_contents(*item), key@),
            None => !item_contents(*item).dom().contains(seq![key@]),
        },
{
    item.get(key)
}

/// Which variant of `toml_edit::Item` the item is; tables and inline tables are
/// the same.
#[verifier::external_body]
fn item_kind(item: &toml_edit::Item) -> (r: TomlKind)
    ensures
        catalog::node_at(item_contents(*item), Seq::<Seq<char>>::empty()) == Some(r.node()),
{
    match item {
        toml_edit::Item::Value(toml_edit::Value::String(s)) => TomlKind::Text(s.value().clone()),
        toml_edit::Item::Value(toml_edit::Value::InlineTable(_)) => TomlKind::Table,
        toml_edit::Item::Table(_) => TomlKind::Table,
        _ => TomlKind::Other,
    }
}

/// There is a text under the key of a section of the document.
pub open spec fn holds_text(doc: toml_edit::DocumentMut, section: Seq<char>, key: Seq<char>) -> bool {
    catalog::node_at(document_contents(doc), seq![section]) == Some(TomlNode::Table)
        && catalog::node_at(document_contents(doc), seq![section, key]) matches Some(
        TomlNode::Text(_),
    )
}

/// `toml_edit::Value::decor`: what stands before and after a value.
#[verifier::external_body]
fn get_decor(doc: &toml_edit::DocumentMut, section: &str, key: &str) -> (r: toml_edit::Decor)
    requires
        holds_text(*doc, section@, key@),
    ensures
        document_decor(*doc).contains_pair(seq![section@, key@], decor_texts(r)),
{
    match doc[section][key].as_value() {
        Some(value) => value.decor().clone(),
        None => toml_edit::Decor::default(),
    }
}

/// Puts a `toml_edit::Value` made from a string in the place of a value. Nothing
/// is set before and after the new one.
#[verifier::external_body]
fn set_text(doc: &mut toml_edit::DocumentMut, section: &str, key: &str, text: &str)
    requires
        holds_text(*old(doc), section@, key@),
    ensures
        document_contents(*final(doc)) == document_contents(*old(doc)).insert(
            seq![section@, key@],
            TomlNode::Text(text@),
        ),
        document_origin(*final(doc)) == document_origin(*old(doc)),
        document_edits(*final(doc)) == document_edits(*old(doc)).push(
            (seq![section@, key@], text@),
        ),
        document_decor(*final(doc)) == document_decor(*old(doc)).insert(
            seq![section@, key@],
            (None, None),
        ),
{
    if let Some(value) = doc[section][key].as_value_mut() {
        *value = toml_edit::Value::from(text);
    }
}

/// `toml_edit::Value::decor_mut`: sets what stands before and after a value, and
/// nothing else.
#[verifier::external_body]
fn set_decor(doc: &mut toml_edit::DocumentMut, section: &str, key: &str, decor: toml_edit::Decor)
    requires
        holds_text(*old(doc), section@, key@),
    ensures
        document_contents(*final(doc)) == document_contents(*old(doc)),
        document_origin(*final(doc)) == document_origin(*old(doc)),
        document_edits(*final(doc)) == document_edits(*old(doc)),
        document_decor(*final(doc)) == document_decor(*old(doc)).insert(
            seq![section@, key@],
            decor_texts(decor),
        ),
{
    if let Some(value) = doc[section][key].as_value_mut() {
        *value.decor_mut() = decor;
    }
}

/// Replaces a text in the document and keeps what stands around it.
fn replace_text(doc: &mut toml_edit::DocumentMut, section: &str, key: &str, text: &str)
    requires
        holds_text(*old(doc), section@, key@),
    ensures
        document_contents(*final(doc)) == document_contents(*old(doc)).insert(
            seq![section@, key@],
            TomlNode::Text(text@),
        ),
        document_origin(*final(doc)) == document_origin(*old(doc)),
        document_edits(*final(doc)) == document_edits(*old(doc)).push(
            (seq![section@, key@], text@),
        ),
        document_decor(*final(doc)) == document_decor(*old(doc)),
{
    let ghost around = document_decor(*doc);
    let decor = get_decor(doc, section, key);
    set_text(doc, section, key, text);
    assert(seq![section@] != seq![section@, key@]) by {
        assert(seq![section@].len() != seq![section@, key@].len());
    }
    set_decor(doc, section, key, decor);
    assert(document_decor(*doc) =~= around);
}

/// `toml_edit::DocumentMut::to_string`: the text of the document, which depends
/// on the text that it was read from, on what was replaced since and on what
/// stands around the values.
#[verifier::external_body]
fn write_document(doc: &toml_edit::DocumentMut) -> (r: String)
    ensures
        r@ == edited_text(document_origin(*doc), document_edits(*doc), document_decor(*doc)),
{
    doc.to_string()
}

/// A version that was bumped.
#[derive(Debug, Clone, PartialEq, Eq)]
pub struct Change {
    pub tool: &'static str,
    pub from: String,
    pub to: String,
}

/// What an upgrade came to.
#[derive(Debug, Clone, PartialEq, Eq)]
pub struct UpgradeOutcome {
    pub changes: Vec<Change>,
    /// Notes on the sections that were left alone.
    pub skipped: Vec<String>,
    pub already_current: Vec<&'static str>,
}

impl Default for UpgradeOutcome {
    fn default() -> (r: Self)
        ensures
            r.changes@.len() == 0,
            r.skipped@.len() == 0,
            r.already_current@.len() == 0,
    {
        UpgradeOutcome { changes: Vec::new(), skipped: Vec::new(), already_current: Vec::new() }
    }
}

/// Why a latest version could not be had.
#[derive(Debug, PartialEq, Eq)]
pub struct FetchError {
    pub message: String,
}

/// Tells the latest versions.
pub trait VersionFetcher {
    fn latest_ktfmt(&self) -> Result<String, FetchError>;

    fn latest_gjf(&self) -> Result<String, FetchError>;

    /// The latest version that someone on `current` can move to.
    fn latest_detekt(&self, current: &str) -> Result<String, FetchError>;
}

/// Why there was no upgrade.
#[derive(Debug, PartialEq, Eq)]
pub enum UpgradeError {
    /// The configuration is no TOML.
    NotToml { path: String, cause: String },
    /// A latest version could not be had.
    Fetch { tool: &'static str, error: FetchError },
}

impl UpgradeError {
    /// What the error says.
    pub open spec fn text(self) -> Seq<char> {
        match self {
            UpgradeError::NotToml { path, cause } => "parse "@ + path@ + " as TOML: "@ + cause@,
            UpgradeError::Fetch { tool, error } => "fetch latest "@ + tool@ + " version: "@
                + error.message@,
        }
    }

    /// What the error says.
    pub fn message(&self) -> (r: String)
        ensures
            r@ == self.text(),
    {
        match self {
            UpgradeError::NotToml { path, cause } => text::cat4(
                "parse ",
                path,
                " as TOML: ",
                cause,
            ),
            UpgradeError::Fetch { tool, error } => text::cat4(
                "fetch latest ",
                tool,
                " version: ",
                &error.message,
            ),
        }
    }
}

/// The tools whose versions can be bumped.
#[derive(Debug, Clone, Copy, PartialEq, Eq, Structural)]
pub enum Tool {
    Ktfmt,
    Gjf,
    Detekt,
}

impl Tool {
    /// The section of the tool.
    pub open spec fn section(self) -> Seq<char> {
        match self {
            Tool::Ktfmt => "ktfmt"@,
            Tool::Gjf => "gjf"@,
            Tool::Detekt => "detekt"@,
        }
    }

    /// The section of the tool.
    pub fn name(&self) -> (r: &'static str)
        ensures
            r@ == self.section(),
    {
        match self {
            Tool::Ktfmt => "ktfmt",
            Tool::Gjf => "gjf",
            Tool::Detekt => "detekt",
        }
    }
}

/// What the section of a tool says of its version.
pub enum SectionState {
    /// There is no such section.
    Absent,
    /// It has no `version`.
    Unversioned,
    /// Its version is no text.
    Reference,
    Version(Seq<char>),
}

/// What a section says of its version, given what stands at the section and
/// what stands at `version` below it.
pub open spec fn state_of(section: Option<TomlNode>, version: Option<TomlNode>) -> SectionState {
    match section {
        Some(TomlNode::Table) => match version {
            None => SectionState::Unversioned,
            Some(TomlNode::Text(v)) => SectionState::Version(v),
            Some(_) => SectionState::Reference,
        },
        _ => SectionState::Absent,
    }
}

/// What the section of a tool says of its version.
pub open spec fn section_state(m: Map<Seq<Seq<char>>, TomlNode>, section: Seq<char>) -> SectionState {
    state_of(
        catalog::node_at(m, seq![section]),
        catalog::node_at(m, seq![section, "version"@]),
    )
}

/// What is to be done with a section.
#[derive(Debug, PartialEq, Eq)]
pub enum Decision {
    /// Nothing.
    Ignore,
    /// It is left alone, with a note.
    Skip(String),
    /// The latest version is to be compared with this one.
    Compare(String),
}

/// The note on a section without a version.
pub open spec fn path_note(tool: Seq<char>) -> Seq<char> {
    tool + ": uses `path = ...`, skipping"@
}

/// The note on a section whose version refers to a catalog.
pub open spec fn catalog_note(tool: Seq<char>) -> Seq<char> {
    tool + ": uses a catalog reference; bump the catalog file directly"@
}

/// Decides what is to be done with a section, given what stands there and what
/// stands at `version` below it.
pub fn decide(tool: &str, section: Option<TomlKind>, version: Option<TomlKind>) -> (r: Decision)
    ensures
        match state_of(catalog::opt_node(section), catalog::opt_node(version)) {
            SectionState::Absent => r == Decision::Ignore,
            SectionState::Unversioned => r matches Decision::Skip(note) && note@ == path_note(
                tool@,
            ),
            SectionState::Reference => r matches Decision::Skip(note) && note@ == catalog_note(
                tool@,
            ),
            SectionState::Version(v) => r matches Decision::Compare(c) && c@ == v,
        },
{
    match section {
        Some(TomlKind::Table) => match version {
            None => Decision::Skip(text::cat2(tool, ": uses `path = ...`, skipping")),
            Some(TomlKind::Text(v)) => Decision::Compare(v),
            Some(_) => Decision::Skip(
                text::cat2(tool, ": uses a catalog reference; bump the catalog file directly"),
            ),
        },
        _ => Decision::Ignore,
    }
}

/// How far an upgrade has come.
pub struct Progress {
    /// Tool, old version and new version.
    pub changes: Seq<(Seq<char>, Seq<char>, Seq<char>)>,
    pub skipped: Seq<Seq<char>>,
    pub current: Seq<Seq<char>>,
    /// The values that were replaced.
    pub edits: Seq<(Seq<Seq<char>>, Seq<char>)>,
}

/// Before the first section.
pub open spec fn no_progress() -> Progress {
    Progress {
        changes: Seq::empty(),
        skipped: Seq::empty(),
        current: Seq::empty(),
        edits: Seq::empty(),
    }
}

/// What an outcome and the edits say.
pub open spec fn progress_of(
    o: UpgradeOutcome,
    edits: Seq<(Seq<Seq<char>>, Seq<char>)>,
) -> Progress {
    Progress {
        changes: o.changes@.map_values(|c: Change| (c.tool@, c.from@, c.to@)),
        skipped: chars::views(o.skipped@),
        current: o.already_current@.map_values(|t: &'static str| t@),
        edits,
    }
}

/// One section further, where `latest` is the latest version of its tool.
pub open spec fn advanced(
    p: Progress,
    tool: Seq<char>,
    state: SectionState,
    latest: Seq<char>,
) -> Progress {
    match state {
        SectionState::Absent => p,
        SectionState::Unversioned => Progress { skipped: p.skipped.push(path_note(tool)), ..p },
        SectionState::Reference => Progress { skipped: p.skipped.push(catalog_note(tool)), ..p },
        SectionState::Version(v) => if v == latest {
            Progress { current: p.current.push(tool), ..p }
        } else {
            Progress {
                changes: p.changes.push((tool, v, latest)),
                edits: p.edits.push((seq![tool, "version"@], latest)),
                ..p
            }
        },
    }
}

/// The fetcher can answer this when it is asked for a tool.
pub open spec fn is_answer<F: VersionFetcher>(
    fetcher: &F,
    tool: Tool,
    current: Seq<char>,
    got: Result<String, FetchError>,
) -> bool {
    match tool {
        Tool::Ktfmt => call_ensures(F::latest_ktfmt, (fetcher,), got),
        Tool::Gjf => call_ensures(F::latest_gjf, (fetcher,), got),
        Tool::Detekt => exists|c: &str|
            c@ == current && #[trigger] call_ensures(F::latest_detekt, (fetcher, c), got),
    }
}

/// A section came to this: progress, or the error of the fetcher, who is asked
/// only where the section has a version.
pub open spec fn is_section_step<F: VersionFetcher>(
    fetcher: &F,
    tool: Tool,
    state: SectionState,
    p: Progress,
    r: Result<Progress, UpgradeError>,
) -> bool {
    match state {
        SectionState::Version(v) => exists|got: Result<String, FetchError>| #[trigger]
            is_answer(fetcher, tool, v, got) && match got {
                Ok(latest) => r == Ok::<_, UpgradeError>(
                    advanced(p, tool.section(), state, latest@),
                ),
                Err(e) => r matches Err(UpgradeError::Fetch { tool: t, error }) && t@
                    == tool.section() && error == e,
            },
        _ => r == Ok::<_, UpgradeError>(
            advanced(p, tool.section(), state, Seq::<char>::empty()),
        ),
    }
}

fn ask<F: VersionFetcher>(fetcher: &F, tool: Tool, current: &str) -> (r: Result<
    String,
    FetchError,
>)
    ensures
        is_answer(fetcher, tool, current@, r),
{
    match tool {
        Tool::Ktfmt => fetcher.latest_ktfmt(),
        Tool::Gjf => fetcher.latest_gjf(),
        Tool::Detekt => fetcher.latest_detekt(current),
    }
}

/// Notes what the comparison of two versions says. The result tells whether they
/// differ.
pub fn compare(tool: Tool, current: String, latest: &str, outcome: &mut UpgradeOutcome) -> (r: bool)
    ensures
        r == (current@ != latest@),
        forall|edits: Seq<(Seq<Seq<char>>, Seq<char>)>|
            ({
                let p = #[trigger] progress_of(*old(outcome), edits);
                let q = advanced(
                    p,
                    tool.section(),
                    SectionState::Version(current@),
                    latest@,
                );
                progress_of(*final(outcome), q.edits) == q
            }),
{
    let ghost cur = current@;
    if text::same(latest, &current) {
        outcome.already_current.push(tool.name());
        proof {
            assert(outcome.already_current@.map_values(|t: &'static str| t@) =~= old(
                outcome,
            ).already_current@.map_values(|t: &'static str| t@).push(tool.section()));
        }
        false
    } else {
        outcome.changes.push(Change { tool: tool.name(), from: current, to: latest.to_owned() });
        proof {
            assert(outcome.changes@.map_values(|c: Change| (c.tool@, c.from@, c.to@)) =~= old(
                outcome,
            ).changes@.map_values(|c: Change| (c.tool@, c.from@, c.to@)).push(
                (tool.section(), cur, latest@),
            ));
        }
        true
    }
}

/// The progress of a document and its outcome.
spec fn document_progress(o: UpgradeOutcome, doc: toml_edit::DocumentMut) -> Progress {
    progress_of(o, document_edits(doc))
}

fn upgrade_section<F: VersionFetcher>(
    doc: &mut toml_edit::DocumentMut,
    tool: Tool,
    outcome: &mut UpgradeOutcome,
    fetcher: &F,
) -> (r: Result<(), UpgradeError>)
    ensures
        ({
            let state = section_state(document_contents(*old(doc)), tool.section());
            let p = document_progress(*old(outcome), *old(doc));
            match r {
                Ok(_) => is_section_step(
                    fetcher,
                    tool,
                    state,
                    p,
                    Ok(document_progress(*final(outcome), *final(doc))),
                ),
                Err(e) => is_section_step(fetcher, tool, state, p, Err(e)),
            }
        }),
        document_origin(*final(doc)) == document_origin(*old(doc)),
        document_decor(*final(doc)) == document_decor(*old(doc)),
        forall|path: Seq<Seq<char>>|
            path != seq![tool.section(), "version"@] ==> #[trigger] catalog::node_at(
                document_contents(*final(doc)),
                path,
            ) == catalog::node_at(document_contents(*old(doc)), path),
{
    let ghost m = document_contents(*doc);
    let ghost name = tool.section();
    let ghost p = document_progress(*outcome, *doc);
    let mut section: Option<TomlKind> = None;
    let mut version: Option<TomlKind> = None;
    if let Some(item) = get_section(doc, tool.name()) {
        section = Some(item_kind(item));
        proof {
            assert(seq![name] + Seq::<Seq<char>>::empty() =~= seq![name]);
            assert(seq![name] + seq!["version"@] =~= seq![name, "version"@]);
        }
        if let Some(entry) = get_entry(item, "version") {
            version = Some(item_kind(entry));
            assert(seq!["version"@] + Seq::<Seq<char>>::empty() =~= seq!["version"@]);
        }
    }
    let ghost state = section_state(m, name);
    assert(catalog::opt_node(section) == catalog::node_at(m, seq![name]));
    assert(section is Some ==> catalog::opt_node(version) == catalog::node_at(
        m,
        seq![name, "version"@],
    ));
    match decide(tool.name(), section, version) {
        Decision::Ignore => Ok(()),
        Decision::Skip(note) => {
            let ghost n = note@;
            outcome.skipped.push(note);
            assert(chars::views(outcome.skipped@) =~= chars::views(old(outcome).skipped@).push(n));
            Ok(())
        },
        Decision::Compare(current) => {
            let ghost v = current@;
            match ask(fetcher, tool, &current) {
                Err(error) => {
                    let ghost got = Err::<String, FetchError>(error);
                    assert(is_answer(fetcher, tool, v, got));
                    Err(UpgradeError::Fetch { tool: tool.name(), error })
                },
                Ok(latest) => {
                    let ghost got = Ok::<String, FetchError>(latest);
                    assert(is_answer(fetcher, tool, v, got));
                    let ghost edits = document_edits(*doc);
                    assert(progress_of(*outcome, edits) == p);
                    if compare(tool, current, &latest, outcome) {
                        replace_text(doc, tool.name(), "version", &latest);
                    }
                    assert(document_progress(*outcome, *doc) == advanced(p, name, state, latest@));
                    Ok(())
                },
            }
        },
    }
}

/// An upgrade of the sections of `tools` came to this, where `m` is what the
/// configuration held at first.
pub open spec fn is_upgrade<F: VersionFetcher>(
    fetcher: &F,
    m: Map<Seq<Seq<char>>, TomlNode>,
    tools: Seq<Tool>,
    p: Progress,
    r: Result<Progress, UpgradeError>,
) -> bool
    decreases tools.len(),
{
    if tools.len() == 0 {
        r == Ok::<_, UpgradeError>(p)
    } else {
        exists|s: Result<Progress, UpgradeError>| #[trigger]
            is_section_step(fetcher, tools[0], section_state(m, tools[0].section()), p, s)
                && match s {
                Ok(q) => is_upgrade(fetcher, m, tools.skip(1), q, r),
                Err(_) => r == s,
            }
    }
}

/// The sections in the order in which they are upgraded.
pub open spec fn all_tools() -> Seq<Tool> {
    seq![Tool::Ktfmt, Tool::Gjf, Tool::Detekt]
}

proof fn lemma_sections_apart(a: Tool, b: Tool)
    requires
        a != b,
    ensures
        a.section() != b.section(),
        seq![a.section()] != seq![b.section(), "version"@],
        seq![a.section(), "version"@] != seq![b.section(), "version"@],
{
    reveal_strlit("ktfmt");
    reveal_strlit("gjf");
    reveal_strlit("detekt");
    assert("ktfmt"@.len() == 5 && "gjf"@.len() == 3 && "detekt"@.len() == 6);
    assert(seq![a.section(), "version"@][0] == a.section());
    assert(seq![b.section(), "version"@][0] == b.section());
    assert(seq![a.section()].len() != seq![b.section(), "version"@].len());
}

/// The sections that are still to come say what they said at first.
spec fn untouched(
    now: Map<Seq<Seq<char>>, TomlNode>,
    m: Map<Seq<Seq<char>>, TomlNode>,
    tools: Seq<Tool>,
) -> bool {
    forall|k: int|
        0 <= k < tools.len() ==> section_state(now, (#[trigger] tools[k]).section())
            == section_state(m, tools[k].section())
}

fn upgrade_document<F: VersionFetcher>(
    doc: &mut toml_edit::DocumentMut,
    outcome: &mut UpgradeOutcome,
    fetcher: &F,
) -> (r: Result<(), UpgradeError>)
    ensures
        document_origin(*final(doc)) == document_origin(*old(doc)),
        document_decor(*final(doc)) == document_decor(*old(doc)),
        is_upgrade(
            fetcher,
            document_contents(*old(doc)),
            all_tools(),
            document_progress(*old(outcome), *old(doc)),
            match r {
                Ok(_) => Ok(document_progress(*final(outcome), *final(doc))),
                Err(e) => Err(e),
            },
        ),
{
    let mut tools: Vec<Tool> = Vec::new();
    tools.push(Tool::Ktfmt);
    tools.push(Tool::Gjf);
    tools.push(Tool::Detekt);
    let ghost all = tools@;
    let ghost m = document_contents(*doc);
    let ghost start = document_progress(*outcome, *doc);
    let mut i: usize = 0;
    proof {
        assert(all =~= all_tools());
        assert(all.skip(0) =~= all);
    }
    while i < tools.len()
        invariant
            i <= tools.len(),
            all == tools@,
            all == all_tools(),
            m == document_contents(*old(doc)),
            start == document_progress(*old(outcome), *old(doc)),
            document_origin(*doc) == document_origin(*old(doc)),
            document_decor(*doc) == document_decor(*old(doc)),
            untouched(document_contents(*doc), m, all.skip(i as int)),
            forall|r: Result<Progress, UpgradeError>| #[trigger]
                is_upgrade(
                    fetcher,
                    m,
                    all.skip(i as int),
                    document_progress(*outcome, *doc),
                    r,
                ) ==> is_upgrade(fetcher, m, all, start, r),
        decreases tools.len() - i,
    {
        let ghost rest = all.skip(i as int);
        let ghost p = document_progress(*outcome, *doc);
        let ghost now = document_contents(*doc);
        let tool = tools[i];
        assert(rest[0] == tool);
        assert(rest.skip(1) =~= all.skip(i + 1));
        match upgrade_section(doc, tool, outcome, fetcher) {
            Err(e) => {
                proof {
                    let s = Err::<Progress, UpgradeError>(e);
                    assert(is_section_step(
                        fetcher,
                        rest[0],
                        section_state(m, rest[0].section()),
                        p,
                        s,
                    ));
                    assert(is_upgrade(fetcher, m, rest, p, s));
                }
                return Err(e);
            },
            Ok(_) => {},
        }
        proof {
            let q = document_progress(*outcome, *doc);
            let s = Ok::<Progress, UpgradeError>(q);
            assert(is_section_step(fetcher, rest[0], section_state(m, rest[0].section()), p, s));
            assert forall|r: Result<Progress, UpgradeError>| #[trigger]
                is_upgrade(fetcher, m, all.skip(i + 1), q, r) implies is_upgrade(
                fetcher,
                m,
                all,
                start,
                r,
            ) by {
                assert(is_upgrade(fetcher, m, rest, p, r));
            }
            let later = all.skip(i + 1);
            let then = document_contents(*doc);
            assert forall|k: int| 0 <= k < later.len() implies section_state(
                then,
                (#[trigger] later[k]).section(),
            ) == section_state(m, later[k].section()) by {
                assert(later[k] == rest[k + 1]);
                assert(later[k] != tool);
                lemma_sections_apart(later[k], tool);
                let name = later[k].section();
                assert(catalog::node_at(then, seq![name]) == catalog::node_at(now, seq![name]));
                assert(catalog::node_at(then, seq![name, "version"@]) == catalog::node_at(
                    now,
                    seq![name, "version"@],
                ));
            }
        }
        i += 1;
    }
    proof {
        assert(all.skip(i as int).len() == 0);
        let p = document_progress(*outcome, *doc);
        assert(is_upgrade(fetcher, m, all.skip(i as int), p, Ok(p)));
    }
    Ok(())
}

/// An upgrade of the configuration `text`, which holds `m`, came to this.
pub open spec fn is_upgrade_of<F: VersionFetcher>(
    fetcher: &F,
    text: Seq<char>,
    m: Map<Seq<Seq<char>>, TomlNode>,
    dry_run: bool,
    r: Result<(UpgradeOutcome, Option<String>), UpgradeError>,
) -> bool {
    exists|s: Result<Progress, UpgradeError>| #[trigger]
        is_upgrade(fetcher, m, all_tools(), no_progress(), s) && match s {
            Err(e) => r == Err::<(UpgradeOutcome, Option<String>), _>(e),
            Ok(p) => r matches Ok((o, new)) && progress_of(o, p.edits) == p && match new {
                None => dry_run || p.changes.len() == 0,
                Some(t) => !dry_run && p.changes.len() > 0 && t@ == edited_text(
                    text,
                    p.edits,
                    edit_decor(text),
                ),
            },
        }
}

/// Bumps the versions in the configuration `text`, which stands in the file
/// `path`. Besides the outcome comes the text that is to be written, unless
/// nothing changed or it is a dry run. It has the spaces and comments around the
/// values that `text` has.
pub fn run_upgrade<F: VersionFetcher>(text: &str, path: &str, fetcher: &F, dry_run: bool) -> (r:
    Result<(UpgradeOutcome, Option<String>), UpgradeError>)
    ensures
        match edit_document(text@) {
            None => r matches Err(UpgradeError::NotToml { path: p, .. }) && p@ == path@,
            Some(m) => is_upgrade_of(fetcher, text@, m, dry_run, r),
        },
{
    let mut doc = match parse_document(text) {
        Ok(d) => d,
        Err(e) => {
            return Err(UpgradeError::NotToml { path: path.to_owned(), cause: e.to_string() });
        },
    };
    let ghost m = document_contents(doc);
    let mut outcome = UpgradeOutcome::default();
    proof {
        let p = document_progress(outcome, doc);
        assert(p.changes =~= no_progress().changes);
        assert(p.skipped =~= no_progress().skipped);
        assert(p.current =~= no_progress().current);
        assert(p == no_progress());
    }
    match upgrade_document(&mut doc, &mut outcome, fetcher) {
        Err(e) => {
            assert(is_upgrade(fetcher, m, all_tools(), no_progress(), Err(e)));
            Err(e)
        },
        Ok(_) => {
            let ghost p = document_progress(outcome, doc);
            assert(is_upgrade(fetcher, m, all_tools(), no_progress(), Ok(p)));
            assert(p.changes.len() == outcome.changes@.len());
            let new = if !dry_run && outcome.changes.len() > 0 {
                Some(write_document(&doc))
            } else {
                None
            };
            Ok((outcome, new))
        },
    }
}

/// The edits that a list of changes asks for: the versions in the sections of
/// the tools.
pub open spec fn version_edits(changes: Seq<(Seq<char>, Seq<char>, Seq<char>)>) -> Seq<
    (Seq<Seq<char>>, Seq<char>),
> {
    changes.map_values(
        |c: (Seq<char>, Seq<char>, Seq<char>)| (seq![c.0, "version"@], c.2),
    )
}

/// Every change gives another version.
pub open spec fn all_differ(changes: Seq<(Seq<char>, Seq<char>, Seq<char>)>) -> bool {
    forall|i: int| 0 <= i < changes.len() ==> (#[trigger] changes[i]).1 != changes[i].2
}

/// An upgrade replaces the versions that it reports as changed and nothing else,
/// and reports none as changed that stays the same.
pub proof fn upgrade_edits_versions_only<F: VersionFetcher>(
    fetcher: &F,
    m: Map<Seq<Seq<char>>, TomlNode>,
    tools: Seq<Tool>,
    p: Progress,
    q: Progress,
)
    requires
        is_upgrade(fetcher, m, tools, p, Ok(q)),
        p.edits == version_edits(p.changes),
        all_differ(p.changes),
    ensures
        q.edits == version_edits(q.changes),
        all_differ(q.changes),
    decreases tools.len(),
{
    if tools.len() > 0 {
        let state = section_state(m, tools[0].section());
        let s = choose|s: Result<Progress, UpgradeError>| #[trigger]
            is_section_step(fetcher, tools[0], state, p, s) && match s {
                Ok(n) => is_upgrade(fetcher, m, tools.skip(1), n, Ok(q)),
                Err(_) => Ok::<Progress, UpgradeError>(q) == s,
            };
        let n = s->Ok_0;
        assert(s is Ok);
        assert(n.edits =~= version_edits(n.changes));
        assert(all_differ(n.changes));
        upgrade_edits_versions_only(fetcher, m, tools.skip(1), n, q);
    }
}

/// Where the metadata of ktfmt is.
pub const KTFMT_METADATA_URL: &'static str =
    "https://repo1.maven.org/maven2/com/facebook/ktfmt/maven-metadata.xml";

/// Where the latest release of google-java-format is told.
pub const GJF_RELEASE_URL: &'static str =
    "https://api.github.com/repos/google/google-java-format/releases/latest";

/// Where the releases of detekt are listed.
pub const DETEKT_RELEASES_URL: &'static str =
    "https://api.github.com/repos/detekt/detekt/releases?per_page=100";

/// What stands between the first `<tag>` and the next `</tag>`, trimmed.
pub open spec fn xml_tag(body: Seq<char>, tag: Seq<char>) -> Option<Seq<char>> {
    let open = "<"@ + tag + ">"@;
    match chars::find(body, open) {
        None => None,
        Some(i) => {
            let rest = body.skip(i + open.len());
            match chars::find(rest, "</"@ + tag + ">"@) {
                None => None,
                Some(j) => Some(chars::trim(rest.take(j))),
            }
        },
    }
}

fn rest_from(s: &str, from: usize) -> (r: String)
    requires
        from <= s@.len(),
    ensures
        r@ == s@.skip(from as int),
{
    let v = text::chars_of(s);
    let r = text::slice(&v, from, v.len());
    assert(r@ =~= s@.skip(from as int));
    r
}

fn start_to(s: &str, to: usize) -> (r: String)
    requires
        to <= s@.len(),
    ensures
        r@ == s@.take(to as int),
{
    let v = text::chars_of(s);
    let r = text::slice(&v, 0, to);
    assert(r@ =~= s@.take(to as int));
    r
}

/// What follows the first occurrence of `p`.
fn after_first(s: &str, p: &str) -> (r: Option<String>)
    ensures
        match chars::find(s@, p@) {
            Some(i) => r matches Some(t) && t@ == s@.skip(i + p@.len()),
            None => r is None,
        },
{
    match text::find(s, p) {
        Some(i) => {
            let n = text::chars_of(p).len();
            proof {
                chars::lemma_find(s@, p@);
            }
            let all = text::chars_of(s).len();
            assert(i + n <= all);
            Some(rest_from(s, i + n))
        },
        None => None,
    }
}

/// What stands between the first `<tag>` and the next `</tag>`, trimmed.
pub fn extract_xml_tag(body: &str, tag: &str) -> (r: Option<String>)
    ensures
        chars::opt_view(r) == xml_tag(body@, tag@),
{
    let rest = match after_first(body, &text::cat3("<", tag, ">")) {
        Some(t) => t,
        None => {
            return None;
        },
    };
    match text::find(&rest, &text::cat3("</", tag, ">")) {
        Some(j) => Some(text::trim(&start_to(&rest, j))),
        None => None,
    }
}

/// The text that the first field of a name holds in a JSON text, as it is
/// written there.
pub open spec fn json_string_field(body: Seq<char>, field: Seq<char>) -> Option<Seq<char>> {
    let key = "\""@ + field + "\""@;
    match chars::find(body, key) {
        None => None,
        Some(i) => {
            let after = body.skip(i + key.len());
            match chars::find(after, ":"@) {
                None => None,
                Some(c) => {
                    let value = chars::trim_start(after.skip(c + ":"@.len()));
                    if chars::starts_with(value, "\""@) {
                        let inner = value.skip("\""@.len() as int);
                        match chars::find(inner, "\""@) {
                            None => None,
                            Some(e) => Some(inner.take(e)),
                        }
                    } else {
                        None
                    }
                },
            }
        },
    }
}

/// The text that the first field of a name holds in a JSON text, as it is
/// written there.
pub fn extract_json_string_field(body: &str, field: &str) -> (r: Option<String>)
    ensures
        chars::opt_view(r) == json_string_field(body@, field@),
{
    let after = match after_first(body, &text::cat3("\"", field, "\"")) {
        Some(t) => t,
        None => {
            return None;
        },
    };
    let value = match after_first(&after, ":") {
        Some(t) => text::trim_start(&t),
        None => {
            return None;
        },
    };
    let inner = match text::strip_prefix(&value, "\"") {
        Some(t) => t,
        None => {
            return None;
        },
    };
    match text::find(&inner, "\"") {
        Some(e) => Some(start_to(&inner, e)),
        None => None,
    }
}

/// A release on GitHub.
#[derive(Debug, PartialEq, Eq)]
pub struct GitHubRelease {
    pub tag_name: String,
    pub draft: bool,
}

/// A version without leading `v`s.
pub open spec fn bare(version: Seq<char>) -> Seq<char> {
    chars::trim_start_char(version, 'v')
}

/// What stands before the first dot of a version.
pub open spec fn major(version: Seq<char>) -> Seq<char> {
    chars::split(bare(version), '.')[0]
}

/// Someone on `current` can move to the release: from a pre-release to any
/// release of the same major version, and else to any that is no pre-release.
pub open spec fn is_candidate(current: Seq<char>, release: GitHubRelease) -> bool {
    !release.draft && if bare(current).contains('-') {
        major(release.tag_name@) == major(current)
    } else {
        !bare(release.tag_name@).contains('-')
    }
}

fn first_part(version: &str) -> (r: String)
    ensures
        r@ == major(version@),
{
    let parts = text::split(&text::trim_start_char(version, 'v'), '.');
    proof {
        chars::lemma_split_nonempty(bare(version@), '.');
        assert(chars::views(parts@)[0] == parts@[0]@);
    }
    parts[0].clone()
}

/// Chooses the first release that someone on `current` can move to.
pub fn select_detekt_release(current: &str, releases: &Vec<GitHubRelease>) -> (r: Result<
    String,
    FetchError,
>)
    ensures
        match r {
            Ok(v) => exists|i: int|
                0 <= i < releases@.len() && #[trigger] is_candidate(current@, releases@[i]) && v@
                    == bare(releases@[i].tag_name@) && forall|k: int|
                    0 <= k < i ==> !#[trigger] is_candidate(current@, releases@[k]),
            Err(e) => (forall|i: int|
                0 <= i < releases@.len() ==> !#[trigger] is_candidate(current@, releases@[i]))
                && e.message@ == "could not find a compatible detekt release for `"@ + bare(
                current@,
            ) + "`"@,
        },
{
    let cur = text::trim_start_char(current, 'v');
    let pre = text::contains_char(&cur, '-');
    let cur_major = first_part(current);
    let mut i: usize = 0;
    while i < releases.len()
        invariant
            i <= releases.len(),
            cur@ == bare(current@),
            pre == bare(current@).contains('-'),
            cur_major@ == major(current@),
            forall|k: int| 0 <= k < i ==> !#[trigger] is_candidate(current@, releases@[k]),
        decreases releases.len() - i,
    {
        let release = &releases[i];
        let tag = text::trim_start_char(&release.tag_name, 'v');
        let fits = if pre {
            text::same(&first_part(&release.tag_name), &cur_major)
        } else {
            !text::contains_char(&tag, '-')
        };
        if !release.draft && fits {
            assert(is_candidate(current@, releases@[i as int]));
            return Ok(tag);
        }
        assert(!is_candidate(current@, releases@[i as int]));
        i += 1;
    }
    Err(
        FetchError {
            message: text::cat3(
                "could not find a compatible detekt release for `",
                &cur,
                "`",
            ),
        },
    )
}

/// The fetcher of the program, which asks the sites of the projects.
#[derive(Debug, Clone, Copy)]
pub struct UreqVersionFetcher;

impl UreqVersionFetcher {
    /// The latest ktfmt, by the metadata of its artifact.
    pub fn ktfmt_release(&self, body: &str) -> (r: Result<String, FetchError>)
        ensures
            match xml_tag(body@, "release"@) {
                Some(v) => r matches Ok(s) && s@ == v,
                None => r matches Err(e) && e.message@
                    == "could not find <release> in ktfmt maven-metadata.xml at "@
                    + KTFMT_METADATA_URL@,
            },
    {
        match extract_xml_tag(body, "release") {
            Some(v) => Ok(v),
            None => Err(
                FetchError {
                    message: text::cat2(
                        "could not find <release> in ktfmt maven-metadata.xml at ",
                        KTFMT_METADATA_URL,
                    ),
                },
            ),
        }
    }

    /// The latest google-java-format, by what GitHub tells of its release.
    pub fn gjf_release(&self, body: &str) -> (r: Result<String, FetchError>)
        ensures
            match json_string_field(body@, "tag_name"@) {
                Some(v) => r matches Ok(s) && s@ == bare(v),
                None => r matches Err(e) && e.message@
                    == "could not find `tag_name` in GitHub response from "@ + GJF_RELEASE_URL@,
            },
    {
        match extract_json_string_field(body, "tag_name") {
            Some(v) => Ok(text::trim_start_char(&v, 'v')),
            None => Err(
                FetchError {
                    message: text::cat2(
                        "could not find `tag_name` in GitHub response from ",
                        GJF_RELEASE_URL,
                    ),
                },
            ),
        }
    }
}

/// Someone on a pre-release stays on its major version, and nobody else is moved
/// to a pre-release. Drafts are never chosen.
pub proof fn releases_are_compatible(current: Seq<char>, release: GitHubRelease)
    requires
        is_candidate(current, release),
    ensures
        !release.draft,
        bare(current).contains('-') ==> major(release.tag_name@) == major(current),
        !bare(current).contains('-') ==> !bare(release.tag_name@).contains('-'),
{
}

/// The tools are upgraded in this order, each in the section of its name.
pub proof fn tools_have_their_sections()
    ensures
        all_tools().len() == 3,
        all_tools()[0].section() == "ktfmt"@,
        all_tools()[1].section() == "gjf"@,
        all_tools()[2].section() == "detekt"@,
        KTFMT_METADATA_URL@
            == "https://repo1.maven.org/maven2/com/facebook/ktfmt/maven-metadata.xml"@,
        GJF_RELEASE_URL@
            == "https://api.github.com/repos/google/google-java-format/releases/latest"@,
        DETEKT_RELEASES_URL@
            == "https://api.github.com/repos/detekt/detekt/releases?per_page=100"@,
{
}

/// A section is there where a table stands under its name; what stands under its
/// `version` is its version where it is a text, a reference where it is anything
/// else, and where nothing stands there the section has none.
pub proof fn sections_say_their_version(m: Map<Seq<Seq<char>>, TomlNode>, section: Seq<char>)
    ensures
        ({
            let here = catalog::node_at(m, seq![section]);
            let version = catalog::node_at(m, seq![section, "version"@]);
            let state = section_state(m, section);
            &&& state is Absent <==> here != Some(TomlNode::Table)
            &&& state is Unversioned <==> here == Some(TomlNode::Table) && version is None
            &&& state is Reference <==> here == Some(TomlNode::Table) && version is Some
                && !(version->0 is Text)
            &&& state is Version <==> here == Some(TomlNode::Table) && version is Some
                && version->0 is Text
            &&& state matches SectionState::Version(v) ==> version == Some(TomlNode::Text(v))
        }),
{
}

/// A section whose version is not the latest is changed to it, and edited in its
/// place; one on the latest is current; one without a version or with a
/// reference is skipped with a note; and a section that is not there changes
/// nothing. Each adds to one list only.
pub proof fn sections_are_accounted_for(
    p: Progress,
    tool: Seq<char>,
    state: SectionState,
    latest: Seq<char>,
)
    ensures
        ({
            let q = advanced(p, tool, state, latest);
            &&& state is Absent ==> q == p
            &&& state is Unversioned ==> q.skipped == p.skipped.push(
                tool + ": uses `path = ...`, skipping"@,
            ) && q.changes == p.changes && q.current == p.current && q.edits == p.edits
            &&& state is Reference ==> q.skipped == p.skipped.push(
                tool + ": uses a catalog reference; bump the catalog file directly"@,
            ) && q.changes == p.changes && q.current == p.current && q.edits == p.edits
            &&& state == SectionState::Version(latest) ==> q.current == p.current.push(tool)
                && q.changes == p.changes && q.skipped == p.skipped && q.edits == p.edits
            &&& state matches SectionState::Version(v) ==> (v != latest ==> q.changes
                == p.changes.push((tool, v, latest)) && q.edits == p.edits.push(
                (seq![tool, "version"@], latest),
            ) && q.current == p.current && q.skipped == p.skipped)
        }),
{
}

/// How many of the sections are there.
pub open spec fn sections_present(m: Map<Seq<Seq<char>>, TomlNode>, tools: Seq<Tool>) -> nat
    decreases tools.len(),
{
    if tools.len() == 0 {
        0
    } else {
        (if section_state(m, tools[0].section()) is Absent {
            0nat
        } else {
            1nat
        }) + sections_present(m, tools.skip(1))
    }
}

/// Where an upgrade goes through, every section that is there has been changed,
/// found current or skipped.
pub proof fn no_section_is_passed_over<F: VersionFetcher>(
    fetcher: &F,
    m: Map<Seq<Seq<char>>, TomlNode>,
    tools: Seq<Tool>,
    p: Progress,
    q: Progress,
)
    requires
        is_upgrade(fetcher, m, tools, p, Ok(q)),
    ensures
        q.changes.len() + q.current.len() + q.skipped.len() == p.changes.len() + p.current.len()
            + p.skipped.len() + sections_present(m, tools),
    decreases tools.len(),
{
    if tools.len() > 0 {
        let state = section_state(m, tools[0].section());
        let s = choose|s: Result<Progress, UpgradeError>| #[trigger]
            is_section_step(fetcher, tools[0], state, p, s) && match s {
                Ok(n) => is_upgrade(fetcher, m, tools.skip(1), n, Ok(q)),
                Err(_) => Ok::<Progress, UpgradeError>(q) == s,
            };
        assert(s is Ok);
        no_section_is_passed_over(fetcher, m, tools.skip(1), s->Ok_0, q);
    }
}

/// Someone on a pre-release can move to just the releases of the same major
/// version that are no drafts, and anyone else to just those that are no
/// pre-releases and no drafts.
pub proof fn candidates_by_current_version(current: Seq<char>, release: GitHubRelease)
    ensures
        is_candidate(current, release) <==> !release.draft && (if bare(current).contains('-') {
            chars::split(bare(release.tag_name@), '.')[0] == chars::split(bare(current), '.')[0]
        } else {
            !bare(release.tag_name@).contains('-')
        }),
{
}

/// A version loses all leading `v`s and nothing else.
pub proof fn leading_vs_are_dropped(vs: Seq<char>, rest: Seq<char>)
    requires
        forall|i: int| 0 <= i < vs.len() ==> #[trigger] vs[i] == 'v',
        rest.len() == 0 || rest[0] != 'v',
    ensures
        bare(vs + rest) == rest,
    decreases vs.len(),
{
    if vs.len() > 0 {
        assert(vs[0] == 'v');
        assert((vs + rest).skip(1) =~= vs.skip(1) + rest);
        leading_vs_are_dropped(vs.skip(1), rest);
    } else {
        assert(vs + rest =~= rest);
    }
}

/// What stands between a tag and its end, neither with a `<` before it, is found
/// and trimmed; a text without the tag gives nothing.
pub proof fn tags_are_found(
    before: Seq<char>,
    tag: Seq<char>,
    inner: Seq<char>,
    after: Seq<char>,
    body: Seq<char>,
)
    requires
        !before.contains('<'),
        !inner.contains('<'),
    ensures
        xml_tag(before + ("<"@ + tag + ">"@) + (inner + ("</"@ + tag + ">"@) + after), tag) == Some(
            chars::trim(inner),
        ),
        !chars::contains(body, "<"@ + tag + ">"@) ==> xml_tag(body, tag) is None,
{
    reveal_strlit("<");
    reveal_strlit("</");
    reveal_strlit(">");
    let open = "<"@ + tag + ">"@;
    let close = "</"@ + tag + ">"@;
    let rest = inner + close + after;
    let s = before + open + rest;
    assert(open[0] == '<' && close[0] == '<');
    chars::lemma_find_first(before, open, rest);
    assert(s.skip(before.len() as int + open.len()) =~= rest);
    chars::lemma_find_first(inner, close, after);
    assert(rest.take(inner.len() as int) =~= inner);
    chars::lemma_find(body, open);
}

/// The first field of a name gives the text behind its colon, up to the quote
/// that ends it; a body without the field gives nothing.
pub proof fn fields_are_found(
    before: Seq<char>,
    field: Seq<char>,
    gap: Seq<char>,
    blanks: Seq<char>,
    value: Seq<char>,
    after: Seq<char>,
    body: Seq<char>,
)
    requires
        body == before + ("\""@ + field + "\""@) + (gap + ":"@ + (blanks + ("\""@ + (value + "\""@
            + after)))),
        forall|i: int|
            #[trigger] chars::occurs_at(body, "\""@ + field + "\""@, i) ==> before.len() <= i,
        !gap.contains(':'),
        forall|i: int| 0 <= i < blanks.len() ==> chars::is_whitespace(#[trigger] blanks[i]),
        !value.contains('"'),
    ensures
        json_string_field(body, field) == Some(value),
{
    reveal_strlit("\"");
    reveal_strlit(":");
    let key = "\""@ + field + "\""@;
    let inner = value + "\""@ + after;
    let quoted = "\""@ + inner;
    let behind = blanks + quoted;
    let rest = gap + ":"@ + behind;
    let n = before.len() as int;
    assert(body.subrange(n, n + key.len()) =~= key);
    assert(chars::occurs_at(body, key, n));
    chars::lemma_find(body, key);
    assert(body.skip(n + key.len()) =~= rest);
    chars::lemma_find_first(gap, ":"@, behind);
    assert(rest.skip(gap.len() as int + ":"@.len()) =~= behind);
    assert(quoted[0] == '"');
    lemma_blanks_are_trimmed(blanks, quoted);
    assert(quoted.take(1) =~= "\""@);
    assert(quoted.skip(1) =~= inner);
    chars::lemma_find_first(value, "\""@, after);
    assert(inner.take(value.len() as int) =~= value);
}

proof fn lemma_blanks_are_trimmed(blanks: Seq<char>, s: Seq<char>)
    requires
        forall|i: int| 0 <= i < blanks.len() ==> chars::is_whitespace(#[trigger] blanks[i]),
        s.len() > 0,
        !chars::is_whitespace(s[0]),
    ensures
        chars::trim_start(blanks + s) == s,
    decreases blanks.len(),
{
    if blanks.len() > 0 {
        assert(chars::is_whitespace(blanks[0]));
        assert((blanks + s)[0] == blanks[0]);
        assert((blanks + s).skip(1) =~= blanks.skip(1) + s);
        lemma_blanks_are_trimmed(blanks.skip(1), s);
    } else {
        assert(blanks + s =~= s);
    }
}

/// Each tool has its own question: the fetcher is asked for the latest version of
/// that tool, and for detekt it is told the version that is in use.
pub proof fn tools_are_asked_for_by_name<F: VersionFetcher>(
    fetcher: &F,
    tool: Tool,
    current: Seq<char>,
    got: Result<String, FetchError>,
)
    requires
        is_answer(fetcher, tool, current, got),
    ensures
        tool is Ktfmt ==> call_ensures(F::latest_ktfmt, (fetcher,), got),
        tool is Gjf ==> call_ensures(F::latest_gjf, (fetcher,), got),
        tool is Detekt ==> exists|c: &str|
            c@ == current && #[trigger] call_ensures(F::latest_detekt, (fetcher, c), got),
{
}

/// An upgrade gives a new text just where it is no dry run and changes a version:
/// the old text with the changed versions in their places and all else as it
/// was.
pub proof fn dry_runs_write_nothing<F: VersionFetcher>(
    fetcher: &F,
    text: Seq<char>,
    m: Map<Seq<Seq<char>>, TomlNode>,
    dry_run: bool,
    r: Result<(UpgradeOutcome, Option<String>), UpgradeError>,
)
    requires
        is_upgrade_of(fetcher, text, m, dry_run, r),
        r is Ok,
    ensures
        (r->Ok_0).1 is Some <==> !dry_run && (r->Ok_0).0.changes@.len() > 0,
        (r->Ok_0).1 matches Some(t) ==> t@ == edited_text(
            text,
            (r->Ok_0).0.changes@.map_values(|c: Change| (seq![c.tool@, "version"@], c.to@)),
            edit_decor(text),
        ),
        forall|i: int|
            0 <= i < (r->Ok_0).0.changes@.len() ==> (#[trigger] (r->Ok_0).0.changes@[i]).from@
                != (r->Ok_0).0.changes@[i].to@,
        (r->Ok_0).0.changes@.len() + (r->Ok_0).0.already_current@.len()
            + (r->Ok_0).0.skipped@.len() == sections_present(m, all_tools()),
{
    let o = (r->Ok_0).0;
    let s = choose|s: Result<Progress, UpgradeError>| #[trigger]
        is_upgrade(fetcher, m, all_tools(), no_progress(), s) && match s {
            Err(e) => r == Err::<(UpgradeOutcome, Option<String>), _>(e),
            Ok(p) => r matches Ok((o, new)) && progress_of(o, p.edits) == p && match new {
                None => dry_run || p.changes.len() == 0,
                Some(t) => !dry_run && p.changes.len() > 0 && t@ == edited_text(
                    text,
                    p.edits,
                    edit_decor(text),
                ),
            },
        };
    assert(s is Ok);
    let p = s->Ok_0;
    let start = no_progress();
    assert(start.edits =~= version_edits(start.changes));
    upgrade_edits_versions_only(fetcher, m, all_tools(), start, p);
    no_section_is_passed_over(fetcher, m, all_tools(), start, p);
    assert(p.changes == progress_of(o, p.edits).changes);
    assert(p.skipped == progress_of(o, p.edits).skipped);
    assert(p.current == progress_of(o, p.edits).current);
    assert(p.edits =~= o.changes@.map_values(|c: Change| (seq![c.tool@, "version"@], c.to@)));
    assert forall|i: int| 0 <= i < o.changes@.len() implies (#[trigger] o.changes@[i]).from@
        != o.changes@[i].to@ by {
        assert(p.changes[i].1 != p.changes[i].2);
    }
}

} // verus!
