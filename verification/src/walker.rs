//! The bounded-depth walk over a directory tree.
//!
//! The walk works on a tree of plain values: each directory node carries
//! its subdirectories and, when its immediate children include the
//! version-control metadata marker, the backend's answers for the
//! repository rooted there. At each node the walk scans the repository if
//! there is one, descends into every subdirectory whose depth lies within
//! the optional budget, and merges all contributions; a branch beyond the
//! budget is pruned and contributes nothing. The marker directory itself
//! is never descended into: recognizing a repository is terminal for that
//! child, while the root's other subdirectories are still walked, so a
//! nested repository is found and counted exactly once.

use vstd::prelude::*;
use crate::catalog::{LangInfo, LanguageCatalog};
use crate::mapping::{
    combine_loc_by_lang, lemma_merge_associative, opt_view, opt_wf, spec_merge, LineCountMapping,
};
use crate::scanner::{scan_records, spec_scan, FileRecord};

verus! {

/// The backend's answers for one repository root: one record per tracked
/// file.
pub struct RepoData {
    pub files: Vec<FileRecord>,
}

/// One directory of the scanned tree: its subdirectories (the metadata
/// marker excluded) and the repository data when the marker is among its
/// immediate children.
pub struct DirNode {
    pub subdirs: Vec<DirNode>,
    pub repo: Option<RepoData>,
}

/// The name of the metadata directory that makes its parent a repository
/// root.
pub open spec fn repo_marker() -> Seq<char> {
    ".git"@
}

/// Whether a directory name is the version-control metadata marker.
pub fn is_repo_marker(name: &str) -> (r: bool)
    ensures
        r <==> name@ == repo_marker(),
{
    let owned: String = name.to_owned();
    let marker: String = ".git".to_owned();
    owned == marker
}

/// Whether a branch at `depth` lies beyond the depth budget.
pub open spec fn pruned(budget: Option<u8>, depth: u8) -> bool {
    match budget {
        Some(b) => depth > b,
        None => false,
    }
}

/// The depth one level further down; it saturates, a depth beyond every
/// budget standing for all deeper levels.
pub open spec fn next_depth(depth: u8) -> u8 {
    if depth == u8::MAX {
        u8::MAX
    } else {
        (depth + 1) as u8
    }
}

/// The repository contribution of one directory: the scan of its data
/// when it is a repository root, nothing otherwise.
pub open spec fn repo_scan_of(
    node: DirNode,
    authors: Seq<String>,
    cat: Map<Seq<char>, LangInfo>,
) -> Option<Map<Seq<char>, u64>> {
    match node.repo {
        None => None,
        Some(rd) => Some(spec_scan(rd.files@, authors, cat)),
    }
}

/// The aggregate of one branch: nothing when the branch is pruned, else
/// the node's own repository contribution merged with the contributions
/// of all its subdirectories, walked one level deeper.
pub open spec fn spec_walk(
    node: DirNode,
    authors: Seq<String>,
    cat: Map<Seq<char>, LangInfo>,
    budget: Option<u8>,
    depth: u8,
) -> Option<Map<Seq<char>, u64>>
    decreases node, 1int, 0int,
{
    if pruned(budget, depth) {
        None
    } else {
        spec_merge(
            repo_scan_of(node, authors, cat),
            spec_walk_kids(node, node.subdirs@.len() as int, authors, cat, budget, depth),
        )
    }
}

/// The merged contributions of the first `i` subdirectories of a node.
pub open spec fn spec_walk_kids(
    node: DirNode,
    i: int,
    authors: Seq<String>,
    cat: Map<Seq<char>, LangInfo>,
    budget: Option<u8>,
    depth: u8,
) -> Option<Map<Seq<char>, u64>>
    decreases node, 0int, i,
        via spec_walk_kids_decreases
{
    if i <= 0 || i > node.subdirs@.len() {
        None
    } else {
        spec_merge(
            spec_walk_kids(node, i - 1, authors, cat, budget, depth),
            spec_walk(node.subdirs[i - 1], authors, cat, budget, next_depth(depth)),
        )
    }
}

#[via_fn]
proof fn spec_walk_kids_decreases(
    node: DirNode,
    i: int,
    authors: Seq<String>,
    cat: Map<Seq<char>, LangInfo>,
    budget: Option<u8>,
    depth: u8,
) {
    if 0 < i <= node.subdirs@.len() {
        vstd::std_specs::vec::axiom_vec_index_decreases(node.subdirs, i - 1);
        assert(decreases_to!(node => node.subdirs));
        assert(decreases_to!(node => node.subdirs[i - 1]));
    }
}

/// Walks one directory: scans it when it is a repository root, descends
/// into its subdirectories while the depth budget allows, and merges
/// every contribution into one optional mapping.
pub fn walk(
    node: &DirNode,
    authors: &Vec<String>,
    catalog: &LanguageCatalog,
    budget: Option<u8>,
    depth: u8,
) -> (r: Option<LineCountMapping>)
    ensures
        opt_wf(r),
        opt_view(r) == spec_walk(*node, authors@, catalog@, budget, depth),
    decreases *node,
{
    if let Some(b) = budget {
        if depth > b {
            return None;
        }
    }
    let mut acc: Option<LineCountMapping> = match &node.repo {
        None => None,
        Some(rd) => Some(scan_records(&rd.files, authors, catalog)),
    };
    let n = node.subdirs.len();
    let mut i: usize = 0;
    while i < n
        invariant
            n == node.subdirs@.len(),
            i <= n,
            !pruned(budget, depth),
            opt_wf(acc),
            opt_view(acc) == spec_merge(
                repo_scan_of(*node, authors@, catalog@),
                spec_walk_kids(*node, i as int, authors@, catalog@, budget, depth),
            ),
        decreases n - i,
    {
        let next: u8 = if depth == u8::MAX {
            u8::MAX
        } else {
            depth + 1
        };
        let descend: bool = match budget {
            None => true,
            Some(b) => next <= b,
        };
        let child_res: Option<LineCountMapping> = if descend {
            walk(&node.subdirs[i], authors, catalog, budget, next)
        } else {
            proof {
                assert(pruned(budget, next_depth(depth)));
                assert(spec_walk(
                    node.subdirs@[i as int],
                    authors@,
                    catalog@,
                    budget,
                    next_depth(depth),
                ) is None);
            }
            None
        };
        proof {
            lemma_merge_associative(
                repo_scan_of(*node, authors@, catalog@),
                spec_walk_kids(*node, i as int, authors@, catalog@, budget, depth),
                opt_view(child_res),
            );
        }
        acc = combine_loc_by_lang(acc, child_res);
        i += 1;
    }
    acc
}

/// Subdirectories one level beyond the budget contribute nothing.
proof fn lemma_kids_beyond_budget(
    node: DirNode,
    i: int,
    authors: Seq<String>,
    cat: Map<Seq<char>, LangInfo>,
    budget: Option<u8>,
    depth: u8,
)
    requires
        pruned(budget, next_depth(depth)),
    ensures
        spec_walk_kids(node, i, authors, cat, budget, depth) is None,
    decreases i,
{
    if i > 0 {
        lemma_kids_beyond_budget(node, i - 1, authors, cat, budget, depth);
        if i <= node.subdirs@.len() {
            assert(spec_walk(node.subdirs[i - 1], authors, cat, budget, next_depth(depth)) is None);
        }
    }
}

/// Depth pruning: under a zero depth budget the walk of the scan root is
/// exactly its own repository contribution — a repository rooted at the
/// scan root itself is still scanned, while every repository strictly
/// below lies in a pruned branch and contributes nothing.
pub proof fn lemma_depth_budget_zero(
    node: DirNode,
    authors: Seq<String>,
    cat: Map<Seq<char>, LangInfo>,
)
    ensures
        spec_walk(node, authors, cat, Some(0u8), 0u8) == repo_scan_of(node, authors, cat),
{
    lemma_kids_beyond_budget(
        node,
        node.subdirs@.len() as int,
        authors,
        cat,
        Some(0u8),
        0u8,
    );
}

} // verus!
