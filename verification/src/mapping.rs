//! Language/count mappings and their merge.
//!
//! A [`LineCountMapping`] maps a language name to the number of attributed
//! lines counted for it. Counts are combined with a saturating addition, so
//! the merge of two mappings is total; entries are only ever created with a
//! positive count. The merge of two optional mappings is commutative and
//! associative, which makes the fold over an arbitrary enumeration order of
//! sibling subtrees deterministic in its final value.

use vstd::prelude::*;

verus! {

/// One entry of a mapping: a language name and its attributed line count.
#[derive(Debug)]
pub struct LangCount {
    pub lang: String,
    pub count: u64,
}

/// The mathematical content of a sequence of entries: later entries win.
pub open spec fn map_of(s: Seq<LangCount>) -> Map<Seq<char>, u64>
    decreases s.len(),
{
    if s.len() == 0 {
        Map::empty()
    } else {
        map_of(s.drop_last()).insert(s.last().lang@, s.last().count)
    }
}

/// A key is in the map exactly when some entry carries it.
pub proof fn lemma_map_of_contains(s: Seq<LangCount>, k: Seq<char>)
    ensures
        map_of(s).contains_key(k) <==> exists|i: int| 0 <= i < s.len() && s[i].lang@ == k,
    decreases s.len(),
{
    if s.len() > 0 {
        lemma_map_of_contains(s.drop_last(), k);
        if map_of(s).contains_key(k) && s.last().lang@ != k {
            let i = choose|i: int| 0 <= i < s.drop_last().len() && s.drop_last()[i].lang@ == k;
            assert(s[i].lang@ == k);
        }
        if exists|i: int| 0 <= i < s.len() && s[i].lang@ == k {
            let i = choose|i: int| 0 <= i < s.len() && s[i].lang@ == k;
            if i < s.len() - 1 {
                assert(s.drop_last()[i].lang@ == k);
            }
        }
    }
}

/// Under distinct keys, each entry's count is the map's value at its key.
pub proof fn lemma_map_of_value(s: Seq<LangCount>, i: int)
    requires
        forall|p: int, q: int|
            0 <= p < q < s.len() ==> s[p].lang@ != s[q].lang@,
        0 <= i < s.len(),
    ensures
        map_of(s).contains_key(s[i].lang@),
        map_of(s)[s[i].lang@] == s[i].count,
    decreases s.len(),
{
    if i == s.len() - 1 {
    } else {
        assert(s.drop_last()[i] == s[i]);
        lemma_map_of_value(s.drop_last(), i);
        assert(s[i].lang@ != s.last().lang@);
    }
}

/// Under distinct keys, the entries and the map's domain count alike.
pub proof fn lemma_map_of_dom_len(s: Seq<LangCount>)
    requires
        forall|p: int, q: int| 0 <= p < q < s.len() ==> s[p].lang@ != s[q].lang@,
    ensures
        map_of(s).dom().finite(),
        map_of(s).dom().len() == s.len(),
    decreases s.len(),
{
    if s.len() > 0 {
        lemma_map_of_dom_len(s.drop_last());
        lemma_map_of_contains(s.drop_last(), s.last().lang@);
        assert(!map_of(s.drop_last()).contains_key(s.last().lang@));
        assert(map_of(s).dom() =~= map_of(s.drop_last()).dom().insert(s.last().lang@));
    }
}

/// A mapping from language name to a positive attributed line count.
#[derive(Debug)]
pub struct LineCountMapping {
    pub entries: Vec<LangCount>,
}

impl View for LineCountMapping {
    type V = Map<Seq<char>, u64>;

    open spec fn view(&self) -> Map<Seq<char>, u64> {
        map_of(self.entries@)
    }
}

impl LineCountMapping {
    /// Entries carry pairwise distinct names and positive counts.
    pub open spec fn wf(&self) -> bool {
        &&& forall|p: int, q: int|
            0 <= p < q < self.entries@.len() ==> self.entries@[p].lang@ != self.entries@[q].lang@
        &&& forall|i: int| 0 <= i < self.entries@.len() ==> self.entries@[i].count > 0
    }

    /// The number of languages held.
    pub fn len(&self) -> (n: usize)
        requires
            self.wf(),
        ensures
            n == self.entries@.len(),
            n == self@.dom().len(),
    {
        proof {
            lemma_map_of_dom_len(self.entries@);
        }
        self.entries.len()
    }

    /// The count held for a language, or nothing when the language has no
    /// entry.
    pub fn get(&self, lang: &String) -> (r: Option<u64>)
        requires
            self.wf(),
        ensures
            match r {
                Some(c) => self@.contains_key(lang@) && self@[lang@] == c,
                None => !self@.contains_key(lang@),
            },
    {
        let n = self.entries.len();
        let mut i: usize = 0;
        while i < n
            invariant
                n == self.entries@.len(),
                i <= n,
                self.wf(),
                forall|j: int| 0 <= j < i ==> self.entries@[j].lang@ != lang@,
            decreases n - i,
        {
            if self.entries[i].lang == *lang {
                proof {
                    lemma_map_of_value(self.entries@, i as int);
                }
                return Some(self.entries[i].count);
            }
            i += 1;
        }
        proof {
            lemma_map_of_contains(self.entries@, lang@);
        }
        None
    }

    /// The mapping with no entries.
    pub fn new() -> (r: LineCountMapping)
        ensures
            r.wf(),
            r@ == Map::<Seq<char>, u64>::empty(),
            r.entries@.len() == 0,
    {
        LineCountMapping { entries: Vec::new() }
    }
}

/// Addition capped at the largest representable count.
pub open spec fn sat_add(a: u64, b: u64) -> u64 {
    if a + b > u64::MAX {
        u64::MAX
    } else {
        (a + b) as u64
    }
}

/// The merge of two mappings: the union of their keys, counts added.
pub open spec fn merged_map(a: Map<Seq<char>, u64>, b: Map<Seq<char>, u64>) -> Map<
    Seq<char>,
    u64,
> {
    Map::new(
        |k: Seq<char>| a.contains_key(k) || b.contains_key(k),
        |k: Seq<char>|
            if a.contains_key(k) && b.contains_key(k) {
                sat_add(a[k], b[k])
            } else if a.contains_key(k) {
                a[k]
            } else {
                b[k]
            },
    )
}

/// The merge of two optional mappings: absent operands are identities.
pub open spec fn spec_merge(
    a: Option<Map<Seq<char>, u64>>,
    b: Option<Map<Seq<char>, u64>>,
) -> Option<Map<Seq<char>, u64>> {
    match (a, b) {
        (Some(x), Some(y)) => Some(merged_map(x, y)),
        (Some(x), None) => Some(x),
        (None, Some(y)) => Some(y),
        (None, None) => None,
    }
}

/// The model of an optional mapping.
pub open spec fn opt_view(o: Option<LineCountMapping>) -> Option<Map<Seq<char>, u64>> {
    match o {
        Some(m) => Some(m@),
        None => None,
    }
}

/// Every mapping of an optional value is well formed.
pub open spec fn opt_wf(o: Option<LineCountMapping>) -> bool {
    match o {
        Some(m) => m.wf(),
        None => true,
    }
}

/// Merging optional mappings is commutative: the operands may be given in
/// either order without changing the result.
pub proof fn lemma_merge_commutative(
    a: Option<Map<Seq<char>, u64>>,
    b: Option<Map<Seq<char>, u64>>,
)
    ensures
        spec_merge(a, b) == spec_merge(b, a),
{
    if let (Some(x), Some(y)) = (a, b) {
        assert(merged_map(x, y) =~= merged_map(y, x));
    }
}

/// Merging optional mappings is associative: a fold over any grouping of
/// the same operands yields the same mapping.
pub proof fn lemma_merge_associative(
    a: Option<Map<Seq<char>, u64>>,
    b: Option<Map<Seq<char>, u64>>,
    c: Option<Map<Seq<char>, u64>>,
)
    ensures
        spec_merge(spec_merge(a, b), c) == spec_merge(a, spec_merge(b, c)),
{
    if let (Some(x), Some(y), Some(z)) = (a, b, c) {
        assert(merged_map(merged_map(x, y), z) =~= merged_map(x, merged_map(y, z)));
    }
}

/// An absent operand is the identity of the merge: two absent mappings
/// merge to an absent one, and one present operand comes back unmodified.
pub proof fn lemma_merge_identity(a: Option<Map<Seq<char>, u64>>)
    ensures
        spec_merge(None, None) == None::<Map<Seq<char>, u64>>,
        spec_merge(a, None) == a,
        spec_merge(None, a) == a,
{
}

/// The merge loses no key and makes no count negative: every key of either
/// operand is a key of the result, every key of the result comes from an
/// operand, and every count of the result is non-negative; where both
/// operands carry only positive counts, so does the result.
pub proof fn lemma_merge_keys_and_counts(a: Map<Seq<char>, u64>, b: Map<Seq<char>, u64>)
    ensures
        forall|k: Seq<char>|
            a.contains_key(k) || b.contains_key(k) <==> #[trigger] merged_map(
                a,
                b,
            ).contains_key(k),
        forall|k: Seq<char>|
            merged_map(a, b).contains_key(k) ==> #[trigger] merged_map(a, b)[k] as int >= 0,
        (forall|k: Seq<char>| a.contains_key(k) ==> a[k] > 0) && (forall|k: Seq<char>|
            b.contains_key(k) ==> b[k] > 0) ==> forall|k: Seq<char>|
            merged_map(a, b).contains_key(k) ==> #[trigger] merged_map(a, b)[k] > 0,
{
}

/// What adding one count does to the model: an absent key is created with
/// the count, a present key's count grows by it.
pub open spec fn spec_add_count(m: Map<Seq<char>, u64>, k: Seq<char>, c: u64) -> Map<
    Seq<char>,
    u64,
> {
    m.insert(
        k,
        if m.contains_key(k) {
            sat_add(m[k], c)
        } else {
            c
        },
    )
}

impl LineCountMapping {
    /// Adds a positive count under a language name, summing with the count
    /// already held for that name if there is one.
    pub fn add_count(&mut self, lang: &String, count: u64)
        requires
            old(self).wf(),
            count > 0,
        ensures
            final(self).wf(),
            final(self)@ == spec_add_count(old(self)@, lang@, count),
    {
        let ghost s0 = self.entries@;
        let n = self.entries.len();
        let mut i: usize = 0;
        while i < n
            invariant
                n == self.entries@.len(),
                i <= n,
                self.entries@ == s0,
                s0 == old(self).entries@,
                old(self).wf(),
                forall|j: int| 0 <= j < i ==> s0[j].lang@ != lang@,
            decreases n - i,
        {
            if self.entries[i].lang == *lang {
                let updated = LangCount {
                    lang: self.entries[i].lang.clone(),
                    count: saturating_add(self.entries[i].count, count),
                };
                self.entries[i] = updated;
                proof {
                    lemma_map_of_update(s0, i as int, self.entries@[i as int]);
                    lemma_map_of_value(s0, i as int);
                    assert(self@ =~= spec_add_count(old(self)@, lang@, count));
                }
                return ;
            }
            i += 1;
        }
        proof {
            lemma_map_of_contains(s0, lang@);
        }
        self.entries.push(LangCount { lang: lang.clone(), count });
        proof {
            assert(self.entries@.drop_last() =~= s0);
            assert(self@ =~= spec_add_count(old(self)@, lang@, count));
        }
    }
}

/// Replacing one entry by another with the same name replaces the value at
/// that name and touches no other key.
proof fn lemma_map_of_update(s: Seq<LangCount>, i: int, e: LangCount)
    requires
        forall|p: int, q: int| 0 <= p < q < s.len() ==> s[p].lang@ != s[q].lang@,
        0 <= i < s.len(),
        e.lang@ == s[i].lang@,
    ensures
        map_of(s.update(i, e)) == map_of(s).insert(e.lang@, e.count),
    decreases s.len(),
{
    if i == s.len() - 1 {
        assert(s.update(i, e).drop_last() =~= s.drop_last());
        assert(map_of(s.update(i, e)) =~= map_of(s).insert(e.lang@, e.count));
    } else {
        assert(s.update(i, e).drop_last() =~= s.drop_last().update(i, e));
        assert(s.drop_last()[i] == s[i]);
        lemma_map_of_update(s.drop_last(), i, e);
        assert(s.last().lang@ != e.lang@);
        assert(map_of(s.update(i, e)) =~= map_of(s).insert(e.lang@, e.count));
    }
}

/// Adds two counts, capping the sum at the largest representable count.
fn saturating_add(a: u64, b: u64) -> (r: u64)
    ensures
        r == sat_add(a, b),
{
    if a > u64::MAX - b {
        u64::MAX
    } else {
        a + b
    }
}

/// Merges two optional mappings into one: both absent yields absent, one
/// present comes back unmodified, and two present mappings are combined by
/// adding the counts of shared keys and keeping every other entry.
pub fn combine_loc_by_lang(
    accumulator: Option<LineCountMapping>,
    other_accumulator: Option<LineCountMapping>,
) -> (r: Option<LineCountMapping>)
    requires
        opt_wf(accumulator),
        opt_wf(other_accumulator),
    ensures
        opt_wf(r),
        opt_view(r) == spec_merge(opt_view(accumulator), opt_view(other_accumulator)),
{
    match (accumulator, other_accumulator) {
        (Some(mut loc_by_lang), Some(loc_by_lang_inner)) => {
            let ghost am = loc_by_lang@;
            let ghost bs = loc_by_lang_inner.entries@;
            let n = loc_by_lang_inner.entries.len();
            let mut i: usize = 0;
            proof {
                assert(bs.take(0) =~= Seq::<LangCount>::empty());
                assert(merged_map(am, map_of(bs.take(0))) =~= am);
            }
            while i < n
                invariant
                    n == bs.len(),
                    i <= n,
                    loc_by_lang_inner.entries@ == bs,
                    loc_by_lang_inner.wf(),
                    loc_by_lang.wf(),
                    loc_by_lang@ == merged_map(am, map_of(bs.take(i as int))),
                decreases n - i,
            {
                let e = &loc_by_lang_inner.entries[i];
                loc_by_lang.add_count(&e.lang, e.count);
                proof {
                    lemma_merge_take_step(am, bs, i as int);
                }
                i += 1;
            }
            proof {
                assert(bs.take(n as int) =~= bs);
            }
            Some(loc_by_lang)
        },
        (Some(loc_by_lang), None) => Some(loc_by_lang),
        (None, Some(loc_by_lang_inner)) => Some(loc_by_lang_inner),
        (None, None) => None,
    }
}

/// Adding one entry of the right operand to an already merged prefix is
/// the merge with the one-longer prefix.
proof fn lemma_merge_take_step(am: Map<Seq<char>, u64>, bs: Seq<LangCount>, i: int)
    requires
        forall|p: int, q: int| 0 <= p < q < bs.len() ==> bs[p].lang@ != bs[q].lang@,
        0 <= i < bs.len(),
    ensures
        spec_add_count(merged_map(am, map_of(bs.take(i))), bs[i].lang@, bs[i].count)
            == merged_map(am, map_of(bs.take(i + 1))),
{
    let k = bs[i].lang@;
    let mi = map_of(bs.take(i));
    lemma_map_of_contains(bs.take(i), k);
    assert(forall|j: int| 0 <= j < i ==> bs.take(i)[j].lang@ != k);
    assert(!mi.contains_key(k));
    assert(bs.take(i + 1).drop_last() =~= bs.take(i));
    assert(map_of(bs.take(i + 1)) == mi.insert(k, bs[i].count));
    assert(spec_add_count(merged_map(am, mi), k, bs[i].count) =~= merged_map(
        am,
        mi.insert(k, bs[i].count),
    ));
}

} // verus!
