//! Selection of the chart's contents.
//!
//! The renderer draws one axis per selected language and scales its rings
//! to the largest count of the whole aggregate. What it needs from the
//! library is pure selection: the languages with the largest counts,
//! ordered from largest, cut to the requested breadth. Ties are broken
//! arbitrarily — the aggregate is an unordered mapping, so no tie-break is
//! promised beyond the ordering and membership stated here. An empty
//! aggregate selects nothing: the caller skips rendering instead of
//! failing.

use vstd::prelude::*;
use crate::mapping::{lemma_map_of_contains, lemma_map_of_value, LangCount, LineCountMapping};

verus! {

/// What the renderer consumes: the selected languages, ordered by count
/// from largest, and the largest count of the whole aggregate.
pub struct ChartData {
    pub items: Vec<LangCount>,
    pub max_count: u64,
}

/// Selects the languages with the largest counts: at most `top_n` of
/// them, ordered by count from largest, every unselected language's count
/// no larger than any selected one's, and the largest count of the whole
/// aggregate alongside. An empty aggregate selects nothing.
pub fn chart_data(data: &LineCountMapping, top_n: u8) -> (r: Option<ChartData>)
    requires
        data.wf(),
    ensures
        r is None <==> data.entries@.len() == 0,
        (match r {
            None => true,
            Some(cd) => {
                &&& cd.items@.len() == (if top_n as int <= data.entries@.len() {
                    top_n as int
                } else {
                    data.entries@.len() as int
                })
                &&& forall|p: int, q: int|
                    0 <= p < q < cd.items@.len() ==> cd.items@[p].count >= cd.items@[q].count
                &&& forall|i: int|
                    0 <= i < cd.items@.len() ==> data@.contains_key(#[trigger] cd.items@[i].lang@)
                        && data@[cd.items@[i].lang@] == cd.items@[i].count
                &&& forall|p: int, q: int|
                    0 <= p < q < cd.items@.len() ==> cd.items@[p].lang@ != cd.items@[q].lang@
                &&& forall|k: Seq<char>|
                    #[trigger] data@.contains_key(k) ==> (exists|i: int|
                        0 <= i < cd.items@.len() && cd.items@[i].lang@ == k) || (forall|i: int|
                        0 <= i < cd.items@.len() ==> data@[k] <= #[trigger] cd.items@[i].count)
                &&& forall|k: Seq<char>| #[trigger] data@.contains_key(k) ==> data@[k] <= cd.max_count
                &&& exists|k: Seq<char>| data@.contains_key(k) && data@[k] == cd.max_count
            },
        }),
{
    let len = data.entries.len();
    if len == 0 {
        return None;
    }
    let ghost dm = data@;
    let ghost es = data.entries@;

    let mut v: Vec<LangCount> = Vec::new();
    let mut i: usize = 0;
    while i < len
        invariant
            len == es.len(),
            es == data.entries@,
            v@.len() == i,
            i <= len,
            forall|j: int|
                0 <= j < i ==> #[trigger] v@[j].lang@ == es[j].lang@ && v@[j].count == es[j].count,
        decreases len - i,
    {
        v.push(LangCount { lang: data.entries[i].lang.clone(), count: data.entries[i].count });
        i += 1;
    }
    proof {
        assert forall|j: int| 0 <= j < len implies dm.contains_key(#[trigger] v@[j].lang@)
            && dm[v@[j].lang@] == v@[j].count by {
            lemma_map_of_value(es, j);
        }
        assert forall|k: Seq<char>| #[trigger] dm.contains_key(k) implies exists|j: int|
            0 <= j < len && v@[j].lang@ == k by {
            lemma_map_of_contains(es, k);
            let j = choose|j: int| 0 <= j < es.len() && es[j].lang@ == k;
            assert(v@[j].lang@ == k);
        }
    }

    let mut s: usize = 0;
    while s < len
        invariant
            data.wf(),
            dm == data@,
            v@.len() == len,
            s <= len,
            forall|p: int, q: int| 0 <= p < s <= q < len ==> v@[p].count >= v@[q].count,
            forall|p: int, q: int| 0 <= p < q < s ==> v@[p].count >= v@[q].count,
            forall|j: int|
                0 <= j < len ==> dm.contains_key(#[trigger] v@[j].lang@) && dm[v@[j].lang@]
                    == v@[j].count,
            forall|p: int, q: int| 0 <= p < q < len ==> v@[p].lang@ != v@[q].lang@,
            forall|k: Seq<char>|
                #[trigger] dm.contains_key(k) ==> exists|j: int| 0 <= j < len && v@[j].lang@ == k,
        decreases len - s,
    {
        let mut m = s;
        let mut t = s + 1;
        while t < len
            invariant
                v@.len() == len,
                s <= m < t <= len,
                forall|u: int| s <= u < t ==> v@[u].count <= v@[m as int].count,
            decreases len - t,
        {
            if v[t].count > v[m].count {
                m = t;
            }
            t += 1;
        }
        if m != s {
            let ghost v0 = v@;
            let es_entry = LangCount { lang: v[s].lang.clone(), count: v[s].count };
            let em_entry = LangCount { lang: v[m].lang.clone(), count: v[m].count };
            v[s] = em_entry;
            v[m] = es_entry;
            proof {
                assert forall|k: Seq<char>| #[trigger] dm.contains_key(k) implies exists|j: int|
                    0 <= j < len && v@[j].lang@ == k by {
                    let j0 = choose|j: int| 0 <= j < len && v0[j].lang@ == k;
                    if j0 == s as int {
                        assert(v@[m as int].lang@ == k);
                    } else if j0 == m as int {
                        assert(v@[s as int].lang@ == k);
                    } else {
                        assert(v@[j0].lang@ == k);
                    }
                }
            }
        }
        s += 1;
    }

    let max0 = v[0].count;
    proof {
        assert forall|k: Seq<char>| #[trigger] dm.contains_key(k) implies dm[k] <= max0 by {
            let j = choose|j: int| 0 <= j < len && v@[j].lang@ == k;
            assert(v@[j].count <= v@[0].count);
        }
        assert(dm.contains_key(v@[0].lang@) && dm[v@[0].lang@] == max0);
    }

    let ghost vfull = v@;
    v.truncate(top_n as usize);
    proof {
        if top_n as int <= len {
            assert(v@ == vfull.subrange(0, top_n as int));
        }
        assert forall|k: Seq<char>| #[trigger] dm.contains_key(k) implies (exists|i: int|
            0 <= i < v@.len() && v@[i].lang@ == k) || (forall|i: int|
            0 <= i < v@.len() ==> dm[k] <= #[trigger] v@[i].count) by {
            let j = choose|j: int| 0 <= j < len && vfull[j].lang@ == k;
            if j < v@.len() {
                assert(v@[j].lang@ == k);
            } else {
                assert forall|i: int| 0 <= i < v@.len() implies dm[k] <= #[trigger] v@[i].count by {
                    assert(vfull[i].count >= vfull[j].count);
                }
            }
        }
    }
    Some(ChartData { items: v, max_count: max0 })
}

} // verus!
