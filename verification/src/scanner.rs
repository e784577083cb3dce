//! The per-repository scan.
//!
//! For one repository the backend answers with a list of tracked files
//! and, per file, a per-line provenance record. The scan counts each
//! file's lines attributed to the requested authors, classifies the file
//! by its extension, and accumulates the counts of files whose language is
//! of Programming kind under the language's canonical name. A file with no
//! attributed line, an unclassified extension or a non-Programming kind
//! contributes nothing; a file whose provenance record could not be
//! decoded is attributed zero lines rather than failing the scan.

use vstd::prelude::*;
use crate::catalog::{LangInfo, LanguageCatalog, LanguageKind};
use crate::mapping::{spec_add_count, LineCountMapping};
use crate::text::{attributed_line_count, extension_key, extension_key_of, spec_attr_count};

verus! {

/// The backend's answers for one tracked file: its path and its per-line
/// provenance record, absent when the record was not decodable as text.
pub struct FileRecord {
    pub path: String,
    pub blame: Option<String>,
}

/// The lines of a file attributed to the requested authors; a file whose
/// provenance record is absent is attributed zero lines.
pub open spec fn file_count(f: FileRecord, authors: Seq<String>) -> u64 {
    match f.blame {
        None => 0,
        Some(b) => spec_attr_count(b@, authors),
    }
}

/// What one file adds to the accumulated mapping: its attributed count
/// under its language's name, when the extension is classified, the kind
/// is Programming and the count is positive; nothing otherwise.
pub open spec fn scan_step(
    m: Map<Seq<char>, u64>,
    f: FileRecord,
    authors: Seq<String>,
    cat: Map<Seq<char>, LangInfo>,
) -> Map<Seq<char>, u64> {
    match extension_key_of(f.path@) {
        None => m,
        Some(k) => if cat.contains_key(k) && cat[k].kind == LanguageKind::Programming
            && file_count(f, authors) > 0 {
            spec_add_count(m, cat[k].name, file_count(f, authors))
        } else {
            m
        },
    }
}

/// The mapping accumulated over the first `i` tracked files.
pub open spec fn scan_prefix(
    files: Seq<FileRecord>,
    i: int,
    authors: Seq<String>,
    cat: Map<Seq<char>, LangInfo>,
) -> Map<Seq<char>, u64>
    decreases i,
{
    if i <= 0 {
        Map::empty()
    } else {
        scan_step(scan_prefix(files, i - 1, authors, cat), files[i - 1], authors, cat)
    }
}

/// The mapping of one repository: every tracked file's contribution, in
/// order.
pub open spec fn spec_scan(
    files: Seq<FileRecord>,
    authors: Seq<String>,
    cat: Map<Seq<char>, LangInfo>,
) -> Map<Seq<char>, u64> {
    scan_prefix(files, files.len() as int, authors, cat)
}

/// Scans one repository: attributes each tracked file's lines to the
/// requested authors, classifies the file by extension, and accumulates
/// the counts of Programming-kind files under their language's name.
pub fn scan_records(
    files: &Vec<FileRecord>,
    authors: &Vec<String>,
    catalog: &LanguageCatalog,
) -> (r: LineCountMapping)
    ensures
        r.wf(),
        r@ == spec_scan(files@, authors@, catalog@),
{
    let mut acc = LineCountMapping::new();
    let mut i: usize = 0;
    while i < files.len()
        invariant
            i <= files@.len(),
            acc.wf(),
            acc@ == scan_prefix(files@, i as int, authors@, catalog@),
        decreases files@.len() - i,
    {
        let f = &files[i];
        let count: u64 = match &f.blame {
            None => 0,
            Some(b) => attributed_line_count(b.as_str(), authors),
        };
        match extension_key(f.path.as_str()) {
            None => {},
            Some(k) => {
                match catalog.classify(&k) {
                    None => {},
                    Some(e) => {
                        if count > 0 && e.kind == LanguageKind::Programming {
                            acc.add_count(&e.name, count);
                        }
                    },
                }
            },
        }
        proof {
            assert(acc@ == scan_prefix(files@, i + 1, authors@, catalog@));
        }
        i += 1;
    }
    acc
}

/// A repository with no tracked files yields the empty mapping, not an
/// error: the scan of an empty listing is total and adds no entry.
pub proof fn lemma_scan_no_files(authors: Seq<String>, cat: Map<Seq<char>, LangInfo>)
    ensures
        spec_scan(Seq::<FileRecord>::empty(), authors, cat) == Map::<Seq<char>, u64>::empty(),
{
}

/// A file without an extension, or whose extension the catalog does not
/// know, contributes to no language's count.
pub proof fn lemma_unclassified_contributes_nothing(
    m: Map<Seq<char>, u64>,
    f: FileRecord,
    authors: Seq<String>,
    cat: Map<Seq<char>, LangInfo>,
)
    requires
        (match extension_key_of(f.path@) {
            None => true,
            Some(k) => !cat.contains_key(k),
        }),
    ensures
        scan_step(m, f, authors, cat) == m,
{
}

/// A file classified as a non-Programming kind contributes to no
/// language's count, whatever its attributed line count.
pub proof fn lemma_non_programming_contributes_nothing(
    m: Map<Seq<char>, u64>,
    f: FileRecord,
    authors: Seq<String>,
    cat: Map<Seq<char>, LangInfo>,
)
    requires
        (match extension_key_of(f.path@) {
            None => false,
            Some(k) => cat.contains_key(k) && cat[k].kind != LanguageKind::Programming,
        }),
    ensures
        scan_step(m, f, authors, cat) == m,
{
}

} // verus!
