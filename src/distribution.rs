//! Counting how often each label occurs, labels in order of first appearance.
use vstd::prelude::*;

verus! {

/// The distinct labels of `labels`, in order of first appearance.
pub open spec fn first_seen(labels: Seq<Seq<char>>) -> Seq<Seq<char>>
    decreases labels.len(),
{
    if labels.len() == 0 {
        Seq::empty()
    } else {
        let p = first_seen(labels.drop_last());
        if p.contains(labels.last()) {
            p
        } else {
            p.push(labels.last())
        }
    }
}

/// How many times `l` occurs in `labels`.
pub open spec fn occurrences(labels: Seq<Seq<char>>, l: Seq<char>) -> nat
    decreases labels.len(),
{
    if labels.len() == 0 {
        0
    } else {
        occurrences(labels.drop_last(), l) + if labels.last() == l {
            1nat
        } else {
            0nat
        }
    }
}

/// A label and how many times it occurs.
pub struct LabelCount {
    pub label: String,
    pub count: u64,
}

pub open spec fn strings_view(v: Seq<String>) -> Seq<Seq<char>> {
    v.map_values(|s: String| s@)
}

/// `r` lists each distinct label of `labels` once, in order of first
/// appearance, with its number of occurrences.
pub open spec fn is_tally_of(r: Seq<LabelCount>, labels: Seq<Seq<char>>) -> bool {
    &&& r.len() == first_seen(labels).len()
    &&& forall|i: int|
        0 <= i < r.len() ==> {
            &&& (#[trigger] r[i]).label@ == first_seen(labels)[i]
            &&& r[i].count == occurrences(labels, first_seen(labels)[i])
        }
}

proof fn lemma_occurrences_bound(labels: Seq<Seq<char>>, l: Seq<char>)
    ensures
        occurrences(labels, l) <= labels.len(),
    decreases labels.len(),
{
    if labels.len() > 0 {
        lemma_occurrences_bound(labels.drop_last(), l);
    }
}

/// Counts the occurrences of each label of `labels`.
pub fn tally(labels: &Vec<String>) -> (r: Vec<LabelCount>)
    ensures
        is_tally_of(r@, strings_view(labels@)),
{
    let ghost all = strings_view(labels@);
    let mut r: Vec<LabelCount> = Vec::new();
    let mut k: usize = 0;
    while k < labels.len()
        invariant
            all == strings_view(labels@),
            k <= labels@.len(),
            is_tally_of(r@, all.subrange(0, k as int)),
        decreases labels@.len() - k,
    {
        let ghost pre = all.subrange(0, k as int);
        let ghost cur = all.subrange(0, k + 1);
        proof {
            assert(cur.drop_last() =~= pre);
            assert(cur.last() == labels@[k as int]@);
        }
        let mut i: usize = 0;
        while i < r.len() && r[i].label != labels[k]
            invariant
                k < labels@.len(),
                0 <= i <= r@.len(),
                forall|j: int| 0 <= j < i ==> (#[trigger] r@[j]).label@ != labels@[k as int]@,
            decreases r@.len() - i,
        {
            i = i + 1;
        }
        if i < r.len() {
            proof {
                assert(first_seen(pre).contains(cur.last())) by {
                    assert(first_seen(pre)[i as int] == cur.last());
                }
                lemma_occurrences_bound(pre, first_seen(pre)[i as int]);
            }
            let c = r[i].count + 1;
            let lc = LabelCount { label: labels[k].clone(), count: c };
            r.set(i, lc);
            proof {
                assert forall|j: int| 0 <= j < r@.len() implies (#[trigger] r@[j]).label@ == first_seen(cur)[j]
                    && r@[j].count == occurrences(cur, first_seen(cur)[j]) by {
                    if j != i {
                        assert(first_seen(pre)[j] != first_seen(pre)[i as int]) by {
                            lemma_first_seen_distinct(pre);
                        }
                    }
                }
            }
        } else {
            proof {
                assert(!first_seen(pre).contains(cur.last())) by {
                    if first_seen(pre).contains(cur.last()) {
                        let j = choose|j: int| 0 <= j < first_seen(pre).len() && first_seen(pre)[j] == cur.last();
                        assert(r@[j].label@ == first_seen(pre)[j]);
                    }
                }
                lemma_occurrences_absent(pre, cur.last());
            }
            r.push(LabelCount { label: labels[k].clone(), count: 1 });
            proof {
                assert forall|j: int| 0 <= j < r@.len() implies (#[trigger] r@[j]).label@ == first_seen(cur)[j]
                    && r@[j].count == occurrences(cur, first_seen(cur)[j]) by {
                    if j < r@.len() - 1 {
                        assert(first_seen(pre)[j] != cur.last());
                    }
                }
            }
        }
        k = k + 1;
    }
    assert(all.subrange(0, k as int) =~= all);
    r
}

proof fn lemma_first_seen_distinct(labels: Seq<Seq<char>>)
    ensures
        first_seen(labels).no_duplicates(),
    decreases labels.len(),
{
    if labels.len() > 0 {
        lemma_first_seen_distinct(labels.drop_last());
    }
}

proof fn lemma_occurrences_absent(labels: Seq<Seq<char>>, l: Seq<char>)
    requires
        !first_seen(labels).contains(l),
    ensures
        occurrences(labels, l) == 0,
    decreases labels.len(),
{
    if labels.len() > 0 {
        let p = first_seen(labels.drop_last());
        if p.contains(l) {
            let j = choose|j: int| 0 <= j < p.len() && p[j] == l;
            if !p.contains(labels.last()) {
                assert(first_seen(labels)[j] == l);
            }
        }
        if !p.contains(labels.last()) {
            assert(first_seen(labels).last() == labels.last());
        }
        lemma_occurrences_absent(labels.drop_last(), l);
    }
}

} // verus!
