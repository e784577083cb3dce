//! Text processing for the attribution pass.
//!
//! Three pieces of pure string work: counting the non-overlapping
//! occurrences of an author marker in a per-line provenance record,
//! splitting the backend's newline-delimited tracked-file listing, and
//! extracting a file name's extension together with its leading dot.

use vstd::prelude::*;
use vstd::string::StrSliceExecFns;
use vstd::string::StringExecFns;

verus! {

/// How often `pat` occurs in `text` at or after position `i`, counting
/// leftmost matches and skipping past each one found.
pub open spec fn count_from(text: Seq<char>, pat: Seq<char>, i: int) -> nat
    decreases text.len() - i,
{
    if pat.len() == 0 || i < 0 || i + pat.len() > text.len() {
        0
    } else if text.subrange(i, i + pat.len()) == pat {
        1 + count_from(text, pat, i + pat.len())
    } else {
        count_from(text, pat, i + 1)
    }
}

/// The number of non-overlapping occurrences of `pat` in `text`.
pub open spec fn count_occurrences(text: Seq<char>, pat: Seq<char>) -> nat {
    count_from(text, pat, 0)
}

/// Occurrences at or after `i` either fit between `i` and the end of the
/// text or there are none.
proof fn lemma_count_from_bound(text: Seq<char>, pat: Seq<char>, i: int)
    requires
        pat.len() >= 1,
    ensures
        count_from(text, pat, i) == 0 || count_from(text, pat, i) + i <= text.len(),
    decreases text.len() - i,
{
    if !(i < 0 || i + pat.len() > text.len()) {
        if text.subrange(i, i + pat.len()) == pat {
            lemma_count_from_bound(text, pat, i + pat.len());
        } else {
            lemma_count_from_bound(text, pat, i + 1);
        }
    }
}

/// Whether `pat` occurs in `text` at position `i` exactly.
fn window_matches(text: &str, pat: &str, i: usize, tlen: usize, plen: usize) -> (b: bool)
    requires
        tlen == text@.len(),
        plen == pat@.len(),
        plen >= 1,
        i + plen <= tlen,
    ensures
        b <==> text@.subrange(i as int, i + pat@.len()) == pat@,
{
    let mut j: usize = 0;
    while j < plen
        invariant
            j <= plen,
            tlen == text@.len(),
            plen == pat@.len(),
            i + plen <= tlen,
            forall|t: int| 0 <= t < j ==> text@[i + t] == pat@[t],
        decreases plen - j,
    {
        if text.get_char(i + j) != pat.get_char(j) {
            proof {
                assert(text@.subrange(i as int, i + pat@.len())[j as int] != pat@[j as int]);
            }
            return false;
        }
        j += 1;
    }
    proof {
        assert(text@.subrange(i as int, i + pat@.len()) =~= pat@);
    }
    true
}

/// Counts the non-overlapping occurrences of `pat` in `text`.
pub fn count_occurrences_in(text: &str, pat: &str) -> (n: usize)
    ensures
        n == count_occurrences(text@, pat@),
{
    let tlen = text.unicode_len();
    let plen = pat.unicode_len();
    if plen == 0 || plen > tlen {
        return 0;
    }
    proof {
        lemma_count_from_bound(text@, pat@, 0);
    }
    let mut i: usize = 0;
    let mut n: usize = 0;
    while i <= tlen - plen
        invariant
            tlen == text@.len(),
            plen == pat@.len(),
            1 <= plen <= tlen,
            i <= tlen,
            count_occurrences(text@, pat@) == n + count_from(text@, pat@, i as int),
            count_occurrences(text@, pat@) <= tlen,
        decreases tlen - i,
    {
        if window_matches(text, pat, i, tlen, plen) {
            proof {
                assert(count_from(text@, pat@, i as int) == 1 + count_from(
                    text@,
                    pat@,
                    i + pat@.len(),
                ));
            }
            n += 1;
            i += plen;
        } else {
            proof {
                assert(count_from(text@, pat@, i as int) == count_from(text@, pat@, i + 1));
            }
            i += 1;
        }
    }
    proof {
        assert(count_from(text@, pat@, i as int) == 0);
    }
    n
}

/// The marker that a provenance record carries before an author's name.
pub open spec fn author_pattern(name: Seq<char>) -> Seq<char> {
    "author "@ + name
}

/// Builds the marker searched for: the author prefix followed by the name.
pub fn make_author_pattern(name: &String) -> (p: String)
    ensures
        p@ == author_pattern(name@),
{
    let mut p = String::from_str("author ");
    p.append(name.as_str());
    p
}

/// Addition of an unbounded count, capped at the largest representable one.
pub open spec fn sat_add_nat(a: u64, b: nat) -> u64 {
    if a + b > u64::MAX {
        u64::MAX
    } else {
        (a + b) as u64
    }
}

/// The attributed line count of a record for the first `i` authors: the
/// occurrences of each author's marker, summed.
pub open spec fn attr_count_prefix(blame: Seq<char>, authors: Seq<String>, i: int) -> u64
    decreases i,
{
    if i <= 0 {
        0
    } else {
        sat_add_nat(
            attr_count_prefix(blame, authors, i - 1),
            count_occurrences(blame, author_pattern(authors[i - 1]@)),
        )
    }
}

/// The attributed line count of a provenance record: for each requested
/// author, the occurrences of that author's marker, summed over all of them.
pub open spec fn spec_attr_count(blame: Seq<char>, authors: Seq<String>) -> u64 {
    attr_count_prefix(blame, authors, authors.len() as int)
}

/// Counts the lines of a provenance record attributed to any of the
/// requested authors: the occurrences of each author's marker, summed.
pub fn attributed_line_count(blame: &str, authors: &Vec<String>) -> (n: u64)
    ensures
        n == spec_attr_count(blame@, authors@),
{
    let mut n: u64 = 0;
    let mut i: usize = 0;
    while i < authors.len()
        invariant
            i <= authors@.len(),
            n == attr_count_prefix(blame@, authors@, i as int),
        decreases authors@.len() - i,
    {
        let pat = make_author_pattern(&authors[i]);
        let c = count_occurrences_in(blame, pat.as_str());
        n = if n > u64::MAX - (c as u64) {
            u64::MAX
        } else {
            n + (c as u64)
        };
        i += 1;
    }
    n
}

/// The segments of a text between its newlines, in order; a text without a
/// newline is one segment, and each newline ends a segment.
pub open spec fn split_lines(s: Seq<char>) -> Seq<Seq<char>>
    decreases s.len(),
{
    if s.len() == 0 {
        seq![Seq::<char>::empty()]
    } else if s[0] == '\n' {
        seq![Seq::<char>::empty()] + split_lines(s.drop_first())
    } else {
        let rest = split_lines(s.drop_first());
        rest.update(0, seq![s[0]] + rest[0])
    }
}

/// A split has at least one segment.
proof fn lemma_split_lines_len(s: Seq<char>)
    ensures
        split_lines(s).len() >= 1,
    decreases s.len(),
{
    if s.len() > 0 {
        lemma_split_lines_len(s.drop_first());
    }
}

/// A newline-free text is one segment.
proof fn lemma_split_lines_whole(s: Seq<char>)
    requires
        forall|t: int| 0 <= t < s.len() ==> s[t] != '\n',
    ensures
        split_lines(s) == seq![s],
    decreases s.len(),
{
    if s.len() > 0 {
        lemma_split_lines_whole(s.drop_first());
    }
    assert(split_lines(s) =~~= seq![s]);
}

/// A newline-free prefix followed by a newline is the first segment; the
/// rest of the text splits on its own.
proof fn lemma_split_lines_prefix(a: Seq<char>, b: Seq<char>)
    requires
        forall|t: int| 0 <= t < a.len() ==> a[t] != '\n',
    ensures
        split_lines(a + seq!['\n'] + b) == seq![a] + split_lines(b),
    decreases a.len(),
{
    let s = a + seq!['\n'] + b;
    if a.len() == 0 {
        assert(s[0] == '\n');
        assert(s.drop_first() =~= b);
        assert(split_lines(s) =~~= seq![a] + split_lines(b));
    } else {
        assert(s[0] == a[0]);
        assert(s[0] != '\n');
        assert(s.drop_first() =~= a.drop_first() + seq!['\n'] + b);
        lemma_split_lines_prefix(a.drop_first(), b);
        lemma_split_lines_len(b);
        assert(split_lines(s) =~~= seq![a] + split_lines(b));
    }
}

/// The tracked paths of the backend's listing: its segments, with the
/// trailing empty entry that a final newline leaves behind discarded.
pub open spec fn tracked_paths(s: Seq<char>) -> Seq<Seq<char>> {
    let parts = split_lines(s);
    if parts.len() > 0 && parts.last().len() == 0 {
        parts.drop_last()
    } else {
        parts
    }
}

/// Splits the backend's newline-delimited listing into tracked paths,
/// discarding the trailing empty entry left by a final newline.
pub fn parse_tracked_list(text: &str) -> (r: Vec<String>)
    ensures
        r.deep_view() == tracked_paths(text@),
{
    let tlen = text.unicode_len();
    let mut parts: Vec<String> = Vec::new();
    let mut start: usize = 0;
    let mut i: usize = 0;
    proof {
        assert(text@.subrange(0, tlen as int) =~= text@);
        assert(parts.deep_view() =~= Seq::<Seq<char>>::empty());
        assert(parts.deep_view() + split_lines(text@) =~~= split_lines(text@));
    }
    while i < tlen
        invariant
            start <= i <= tlen,
            tlen == text@.len(),
            forall|t: int| start <= t < i ==> text@[t] != '\n',
            split_lines(text@) == parts.deep_view() + split_lines(
                text@.subrange(start as int, tlen as int),
            ),
        decreases tlen - i,
    {
        if text.get_char(i) == '\n' {
            let seg = text.substring_char(start, i).to_owned();
            let ghost old_parts = parts.deep_view();
            parts.push(seg);
            proof {
                let suffix = text@.subrange(start as int, tlen as int);
                let a = text@.subrange(start as int, i as int);
                let b = text@.subrange(i + 1, tlen as int);
                assert(suffix =~= a + seq!['\n'] + b);
                lemma_split_lines_prefix(a, b);
                assert(parts.deep_view() =~= old_parts.push(a));
                assert(parts.deep_view() + split_lines(b) =~~= old_parts + split_lines(suffix));
            }
            start = i + 1;
        }
        i += 1;
    }
    let seg = text.substring_char(start, tlen).to_owned();
    let ghost old_parts = parts.deep_view();
    parts.push(seg);
    proof {
        let suffix = text@.subrange(start as int, tlen as int);
        lemma_split_lines_whole(suffix);
        assert(parts.deep_view() =~= old_parts.push(suffix));
        assert(parts.deep_view() =~~= split_lines(text@));
    }
    let plen = parts.len();
    let last_empty = parts[plen - 1].as_str().unicode_len() == 0;
    if last_empty {
        parts.pop();
        proof {
            assert(parts.deep_view() =~= split_lines(text@).drop_last());
        }
    }
    parts
}

/// The index of the last occurrence of `c` before position `i`, or -1.
pub open spec fn last_index_before(s: Seq<char>, c: char, i: int) -> int
    decreases i,
{
    if i <= 0 {
        -1
    } else if s[i - 1] == c {
        i - 1
    } else {
        last_index_before(s, c, i - 1)
    }
}

/// The index of the last occurrence of `c` in `s`, or -1 if there is none.
pub open spec fn last_index_of(s: Seq<char>, c: char) -> int {
    last_index_before(s, c, s.len() as int)
}

/// The last index found lies before `i`.
proof fn lemma_last_index_range(s: Seq<char>, c: char, i: int)
    requires
        i >= 0,
    ensures
        -1 <= last_index_before(s, c, i) < i,
    decreases i,
{
    if i > 0 && s[i - 1] != c {
        lemma_last_index_range(s, c, i - 1);
    }
}

/// Finds the last occurrence of `c` in `s`.
fn last_index_of_char(s: &str, c: char) -> (r: Option<usize>)
    ensures
        match r {
            Some(i) => last_index_of(s@, c) == i as int,
            None => last_index_of(s@, c) == -1,
        },
{
    let n = s.unicode_len();
    let mut i = n;
    while i > 0
        invariant
            i <= n,
            n == s@.len(),
            last_index_of(s@, c) == last_index_before(s@, c, i as int),
        decreases i,
    {
        if s.get_char(i - 1) == c {
            return Some(i - 1);
        }
        i -= 1;
    }
    None
}

/// The file name of a path: what follows its last separator.
pub open spec fn file_name_of(p: Seq<char>) -> Seq<char> {
    p.subrange(last_index_of(p, '/') + 1, p.len() as int)
}

/// The extension of a path: the part of its file name after the final dot,
/// absent when the file name holds no dot or only a leading one.
pub open spec fn extension_of(p: Seq<char>) -> Option<Seq<char>> {
    let f = file_name_of(p);
    let j = last_index_of(f, '.');
    if j <= 0 {
        None
    } else {
        Some(f.subrange(j + 1, f.len() as int))
    }
}

/// The catalog key of a path: its extension with the leading dot kept.
pub open spec fn extension_key_of(p: Seq<char>) -> Option<Seq<char>> {
    match extension_of(p) {
        None => None,
        Some(e) => Some(seq!['.'] + e),
    }
}

/// Extracts a path's extension, with its leading dot, as the catalog key.
pub fn extension_key(path: &str) -> (r: Option<String>)
    ensures
        match r {
            Some(s) => extension_key_of(path@) == Some(s@),
            None => extension_key_of(path@) is None,
        },
{
    let n = path.unicode_len();
    proof {
        lemma_last_index_range(path@, '/', n as int);
    }
    let fstart: usize = match last_index_of_char(path, '/') {
        Some(i) => i + 1,
        None => 0,
    };
    let fname = path.substring_char(fstart, n);
    proof {
        assert(fname@ == file_name_of(path@));
    }
    let flen = fname.unicode_len();
    proof {
        lemma_last_index_range(fname@, '.', flen as int);
    }
    match last_index_of_char(fname, '.') {
        None => None,
        Some(j) => {
            if j == 0 {
                None
            } else {
                let ext = fname.substring_char(j + 1, flen);
                let mut key = String::from_str(".");
                key.append(ext);
                proof {
                    reveal_strlit(".");
                    assert("."@ =~= seq!['.']);
                    assert(key@ == extension_key_of(path@)->Some_0);
                }
                Some(key)
            }
        },
    }
}

} // verus!
