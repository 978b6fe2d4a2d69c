//! Gradle-style version catalogs: the `[versions]` table of a TOML file.

use crate::chars;
use crate::text;
use vstd::prelude::*;

verus! {

#[verifier::external_type_specification]
#[verifier::external_body]
pub struct ExTomlValue(toml::Value);

#[verifier::external_type_specification]
#[verifier::external_body]
pub struct ExTomlError(toml::de::Error);

/// What stands at a place of a TOML document.
pub enum TomlNode {
    Text(Seq<char>),
    Table,
    Other,
}

/// What a TOML value is.
#[derive(Debug, PartialEq, Eq)]
pub enum TomlKind {
    Text(String),
    Table,
    Other,
}

impl TomlKind {
    pub open spec fn node(self) -> TomlNode {
        match self {
            TomlKind::Text(s) => TomlNode::Text(s@),
            TomlKind::Table => TomlNode::Table,
            TomlKind::Other => TomlNode::Other,
        }
    }
}

/// The document that `toml::from_str` reads from a text: what stands at each
/// path of keys, the empty path being the document itself. Nothing where the
/// text is no TOML.
pub uninterp spec fn toml_document(text: Seq<char>) -> Option<Map<Seq<Seq<char>>, TomlNode>>;

/// What a value holds at each path of keys, the empty path being the value
/// itself.
pub uninterp spec fn toml_contents(value: toml::Value) -> Map<Seq<Seq<char>>, TomlNode>;

/// What stands below a key.
pub open spec fn below(m: Map<Seq<Seq<char>>, TomlNode>, key: Seq<char>) -> Map<
    Seq<Seq<char>>,
    TomlNode,
> {
    Map::new(|p: Seq<Seq<char>>| m.dom().contains(seq![key] + p), |p: Seq<Seq<char>>| m[seq![key] + p])
}

/// `toml::from_str`, read into a `toml::Value`: the document of the text, or an
/// error where it is no TOML.
#[verifier::external_body]
fn parse_toml(text: &str) -> (r: Result<toml::Value, toml::de::Error>)
    ensures
        match r {
            Ok(v) => toml_document(text@) == Some(toml_contents(v)),
            Err(_) => toml_document(text@) is None,
        },
{
    toml::from_str(text)
}

/// `toml::Value::get` with a key: what stands below the key of a table, and
/// nothing where there is no such key or no table.
#[verifier::external_body]
fn get_key<'a>(value: &'a toml::Value, key: &str) -> (r: Option<&'a toml::Value>)
    ensures
        match r {
            Some(v) => toml_contents(*value).dom().contains(seq![key@]) && toml_contents(*v)
                == below(toml_contents(*value), key@),
            None => !toml_contents(*value).dom().contains(seq![key@]),
        },
{
    value.get(key)
}

/// Which variant of `toml::Value` the value is.
#[verifier::external_body]
fn kind_of(value: &toml::Value) -> (r: TomlKind)
    ensures
        node_at(toml_contents(*value), Seq::<Seq<char>>::empty()) == Some(r.node()),
{
    match value {
        toml::Value::String(s) => TomlKind::Text(s.clone()),
        toml::Value::Table(_) => TomlKind::Table,
        _ => TomlKind::Other,
    }
}

/// What is wrong with a catalog, or with a key in it.
#[derive(Debug, Clone, Copy, PartialEq, Eq, Structural)]
pub enum CatalogFault {
    /// The text is no TOML.
    NotToml,
    /// The document is no table.
    NotTable,
    /// There is no `[versions]`.
    VersionsMissing,
    /// `versions` is no table.
    VersionsNotTable,
    /// The version is a structured one.
    Rich,
    /// There is no such version.
    KeyMissing,
}

/// The version that stands under a key, given what the document is, what stands
/// at `versions` and what stands at the key below it.
pub open spec fn picked(
    document: TomlNode,
    versions: Option<TomlNode>,
    entry: Option<TomlNode>,
) -> Result<Seq<char>, CatalogFault> {
    if document !is Table {
        Err(CatalogFault::NotTable)
    } else {
        match versions {
            None => Err(CatalogFault::VersionsMissing),
            Some(TomlNode::Table) => match entry {
                Some(TomlNode::Text(v)) => Ok(v),
                Some(TomlNode::Table) => Err(CatalogFault::Rich),
                _ => Err(CatalogFault::KeyMissing),
            },
            Some(_) => Err(CatalogFault::VersionsNotTable),
        }
    }
}

/// What stands at a path of keys, if anything.
pub open spec fn node_at(m: Map<Seq<Seq<char>>, TomlNode>, path: Seq<Seq<char>>) -> Option<
    TomlNode,
> {
    if m.dom().contains(path) {
        Some(m[path])
    } else {
        None
    }
}

/// The version that a document gives under a key.
pub open spec fn version_in(m: Map<Seq<Seq<char>>, TomlNode>, key: Seq<char>) -> Result<
    Seq<char>,
    CatalogFault,
> {
    let versions = node_at(m, seq!["versions"@]);
    picked(
        m[Seq::<Seq<char>>::empty()],
        versions,
        if versions is Some {
            node_at(m, seq!["versions"@, key])
        } else {
            None
        },
    )
}

/// The version that a catalog text gives under a key.
pub open spec fn catalog_version(text: Seq<char>, key: Seq<char>) -> Result<
    Seq<char>,
    CatalogFault,
> {
    match toml_document(text) {
        None => Err(CatalogFault::NotToml),
        Some(m) => version_in(m, key),
    }
}

/// The nodes of an optional kind.
pub open spec fn opt_node(k: Option<TomlKind>) -> Option<TomlNode> {
    match k {
        Some(k) => Some(k.node()),
        None => None,
    }
}

/// Chooses the version, given what the document is, what stands at `versions`
/// and what stands at the key below it.
pub fn pick_version(document: TomlKind, versions: Option<TomlKind>, entry: Option<TomlKind>) -> (r:
    Result<String, CatalogFault>)
    ensures
        match r {
            Ok(v) => picked(document.node(), opt_node(versions), opt_node(entry)) == Ok::<
                _,
                CatalogFault,
            >(v@),
            Err(f) => picked(document.node(), opt_node(versions), opt_node(entry)) == Err::<
                Seq<char>,
                _,
            >(f),
        },
{
    match document {
        TomlKind::Table => {},
        _ => {
            return Err(CatalogFault::NotTable);
        },
    }
    match versions {
        None => Err(CatalogFault::VersionsMissing),
        Some(TomlKind::Table) => match entry {
            Some(TomlKind::Text(v)) => Ok(v),
            Some(TomlKind::Table) => Err(CatalogFault::Rich),
            _ => Err(CatalogFault::KeyMissing),
        },
        Some(_) => Err(CatalogFault::VersionsNotTable),
    }
}

/// A catalog that has been read.
pub struct Catalog {
    value: toml::Value,
}

impl Catalog {
    /// The document of the catalog.
    pub closed spec fn view(&self) -> Map<Seq<Seq<char>>, TomlNode> {
        toml_contents(self.value)
    }

    /// Reads a catalog. The error is that of the `toml` crate, in its words.
    pub fn parse(text: &str) -> (r: Result<Self, String>)
        ensures
            match r {
                Ok(c) => toml_document(text@) == Some(c@),
                Err(_) => toml_document(text@) is None,
            },
    {
        match parse_toml(text) {
            Ok(value) => Ok(Catalog { value }),
            Err(e) => Err(e.to_string()),
        }
    }

    /// The version under a key.
    pub fn version(&self, key: &str) -> (r: Result<String, CatalogFault>)
        ensures
            match r {
                Ok(v) => version_in(self@, key@) == Ok::<_, CatalogFault>(v@),
                Err(f) => version_in(self@, key@) == Err::<Seq<char>, _>(f),
            },
    {
        let document = kind_of(&self.value);
        match get_key(&self.value, "versions") {
            None => pick_version(document, None, None),
            Some(table) => {
                let versions = Some(kind_of(table));
                let entry = match get_key(table, key) {
                    Some(v) => Some(kind_of(v)),
                    None => None,
                };
                proof {
                    let e = Seq::<Seq<char>>::empty();
                    assert(seq!["versions"@] + e =~= seq!["versions"@]);
                    assert(seq!["versions"@] + seq![key@] =~= seq!["versions"@, key@]);
                    assert(seq![key@] + e =~= seq![key@]);
                }
                pick_version(document, versions, entry)
            },
        }
    }
}

/// A version is given just where the document and its `versions` are tables and
/// a text stands under the key; a table there is a rich version, anything else
/// none.
pub proof fn versions_are_texts(m: Map<Seq<Seq<char>>, TomlNode>, key: Seq<char>)
    ensures
        ({
            let root = m[Seq::<Seq<char>>::empty()];
            let versions = node_at(m, seq!["versions"@]);
            let entry = node_at(m, seq!["versions"@, key]);
            let r = version_in(m, key);
            &&& r is Ok <==> root is Table && versions == Some(TomlNode::Table) && entry is Some
                && entry->0 is Text
            &&& r matches Ok(v) ==> entry == Some(TomlNode::Text(v))
            &&& r == Err::<Seq<char>, CatalogFault>(CatalogFault::NotTable) <==> !(root is Table)
            &&& r == Err::<Seq<char>, CatalogFault>(CatalogFault::VersionsMissing) <==> root
                is Table && versions is None
            &&& r == Err::<Seq<char>, CatalogFault>(CatalogFault::VersionsNotTable) <==> root
                is Table && versions is Some && !(versions->0 is Table)
            &&& r == Err::<Seq<char>, CatalogFault>(CatalogFault::Rich) <==> root is Table
                && versions == Some(TomlNode::Table) && entry == Some(TomlNode::Table)
            &&& r == Err::<Seq<char>, CatalogFault>(CatalogFault::KeyMissing) <==> root is Table
                && versions == Some(TomlNode::Table) && (entry is None || entry->0 is Other)
        }),
{
}

/// A catalog gives the version of its document, and a text that is no TOML
/// none.
pub proof fn catalogs_are_documents(text: Seq<char>, key: Seq<char>)
    ensures
        toml_document(text) is None <==> catalog_version(text, key) == Err::<
            Seq<char>,
            CatalogFault,
        >(CatalogFault::NotToml),
        toml_document(text) matches Some(m) ==> catalog_version(text, key) == version_in(m, key),
{
}

} // verus!
