//! The language catalog: a static mapping from file extension to language.
//!
//! The catalog is built once from a table of language records, each naming
//! a language, its kind and the extensions it claims. Every extension is
//! keyed with its leading dot and maps to exactly one language; when two
//! records claim the same extension, the one loaded last wins.

use vstd::prelude::*;

verus! {

/// The classification axis that separates source code from other formats.
#[derive(Clone, Copy, PartialEq, Eq, Structural, Debug)]
pub enum LanguageKind {
    Programming,
    Data,
    Prose,
    Markup,
}

/// One record of the static dataset: a language, its kind, and the
/// extensions (with their leading dot) that it claims.
pub struct LanguageDef {
    pub name: String,
    pub kind: LanguageKind,
    pub extensions: Vec<String>,
}

/// What the catalog knows of one extension.
pub struct LangInfo {
    pub name: Seq<char>,
    pub kind: LanguageKind,
}

/// One loaded catalog row: an extension and the language it maps to.
pub struct CatalogEntry {
    pub ext: String,
    pub name: String,
    pub kind: LanguageKind,
}

/// The mathematical content of the loaded rows: later rows win.
pub open spec fn ext_map_of(s: Seq<CatalogEntry>) -> Map<Seq<char>, LangInfo>
    decreases s.len(),
{
    if s.len() == 0 {
        Map::empty()
    } else {
        ext_map_of(s.drop_last()).insert(
            s.last().ext@,
            LangInfo { name: s.last().name@, kind: s.last().kind },
        )
    }
}

/// The mapping after inserting the first `j` extensions of one record.
pub open spec fn catalog_after_exts(
    m: Map<Seq<char>, LangInfo>,
    name: Seq<char>,
    kind: LanguageKind,
    exts: Seq<String>,
    j: int,
) -> Map<Seq<char>, LangInfo>
    decreases j,
{
    if j <= 0 {
        m
    } else {
        catalog_after_exts(m, name, kind, exts, j - 1).insert(exts[j - 1]@, LangInfo { name, kind })
    }
}

/// The mapping after loading the first `i` records, in order.
pub open spec fn catalog_prefix(defs: Seq<LanguageDef>, i: int) -> Map<Seq<char>, LangInfo>
    decreases i,
{
    if i <= 0 {
        Map::empty()
    } else {
        catalog_after_exts(
            catalog_prefix(defs, i - 1),
            defs[i - 1].name@,
            defs[i - 1].kind,
            defs[i - 1].extensions@,
            defs[i - 1].extensions@.len() as int,
        )
    }
}

/// The mapping that loading a whole table of records builds: each record's
/// extensions inserted in order, a later record overriding an earlier one.
pub open spec fn spec_catalog(defs: Seq<LanguageDef>) -> Map<Seq<char>, LangInfo> {
    catalog_prefix(defs, defs.len() as int)
}

/// The static extension-to-language mapping.
pub struct LanguageCatalog {
    pub entries: Vec<CatalogEntry>,
}

impl View for LanguageCatalog {
    type V = Map<Seq<char>, LangInfo>;

    open spec fn view(&self) -> Map<Seq<char>, LangInfo> {
        ext_map_of(self.entries@)
    }
}

/// A row whose extension no later row claims gives the map's value there.
proof fn lemma_ext_map_last(s: Seq<CatalogEntry>, i: int)
    requires
        0 <= i < s.len(),
        forall|j: int| i < j < s.len() ==> s[j].ext@ != s[i].ext@,
    ensures
        ext_map_of(s).contains_key(s[i].ext@),
        ext_map_of(s)[s[i].ext@] == (LangInfo { name: s[i].name@, kind: s[i].kind }),
    decreases s.len(),
{
    if i < s.len() - 1 {
        assert(s.drop_last()[i] == s[i]);
        lemma_ext_map_last(s.drop_last(), i);
    }
}

/// An extension no row claims is not in the map.
proof fn lemma_ext_map_none(s: Seq<CatalogEntry>, k: Seq<char>)
    requires
        forall|j: int| 0 <= j < s.len() ==> s[j].ext@ != k,
    ensures
        !ext_map_of(s).contains_key(k),
    decreases s.len(),
{
    if s.len() > 0 {
        lemma_ext_map_none(s.drop_last(), k);
    }
}

/// A classified language: its canonical name and its kind.
pub struct LanguageEntry {
    pub name: String,
    pub kind: LanguageKind,
}

impl LanguageCatalog {
    /// Loads the catalog from a table of records: every extension of every
    /// record is keyed, and of two records claiming one extension the
    /// later wins.
    pub fn from_defs(defs: &Vec<LanguageDef>) -> (c: LanguageCatalog)
        ensures
            c@ == spec_catalog(defs@),
    {
        let mut entries: Vec<CatalogEntry> = Vec::new();
        let mut i: usize = 0;
        while i < defs.len()
            invariant
                i <= defs@.len(),
                ext_map_of(entries@) == catalog_prefix(defs@, i as int),
            decreases defs@.len() - i,
        {
            let d = &defs[i];
            let mut j: usize = 0;
            while j < d.extensions.len()
                invariant
                    i < defs@.len(),
                    d == defs@[i as int],
                    j <= d.extensions@.len(),
                    ext_map_of(entries@) == catalog_after_exts(
                        catalog_prefix(defs@, i as int),
                        defs@[i as int].name@,
                        defs@[i as int].kind,
                        defs@[i as int].extensions@,
                        j as int,
                    ),
                decreases d.extensions@.len() - j,
            {
                let ghost old_entries = entries@;
                entries.push(
                    CatalogEntry { ext: d.extensions[j].clone(), name: d.name.clone(), kind: d.kind },
                );
                proof {
                    assert(entries@.drop_last() =~= old_entries);
                }
                j += 1;
            }
            i += 1;
        }
        LanguageCatalog { entries }
    }

    /// Looks an extension (with its leading dot) up: the language that
    /// claims it, or nothing when the catalog does not know it.
    pub fn classify(&self, ext: &String) -> (r: Option<LanguageEntry>)
        ensures
            match r {
                Some(e) => self@.contains_key(ext@) && self@[ext@].name == e.name@
                    && self@[ext@].kind == e.kind,
                None => !self@.contains_key(ext@),
            },
    {
        let n = self.entries.len();
        let mut i = n;
        while i > 0
            invariant
                i <= n,
                n == self.entries@.len(),
                forall|j: int| i <= j < n ==> self.entries@[j].ext@ != ext@,
            decreases i,
        {
            if self.entries[i - 1].ext == *ext {
                proof {
                    lemma_ext_map_last(self.entries@, i - 1);
                }
                return Some(
                    LanguageEntry {
                        name: self.entries[i - 1].name.clone(),
                        kind: self.entries[i - 1].kind,
                    },
                );
            }
            i -= 1;
        }
        proof {
            lemma_ext_map_none(self.entries@, ext@);
        }
        None
    }
}

} // verus!
