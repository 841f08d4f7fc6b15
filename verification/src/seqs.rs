//! Small facts about sequences used by the state types.
use vstd::prelude::*;

verus! {

/// `i` is the first index at which `x` occurs in `s`.
pub open spec fn is_first_at<T>(s: Seq<T>, x: T, i: int) -> bool {
    &&& 0 <= i < s.len()
    &&& s[i] == x
    &&& forall|j: int| 0 <= j < i ==> s[j] != x
}

/// Index of the first occurrence of `x` in `s`, or -1 when there is none.
pub open spec fn first_index<T>(s: Seq<T>, x: T) -> int {
    if exists|i: int| is_first_at(s, x, i) {
        choose|i: int| is_first_at(s, x, i)
    } else {
        -1
    }
}

/// `first_index` names the index at which a scan stops.
pub proof fn lemma_first_index_is<T>(s: Seq<T>, x: T, i: int)
    requires
        is_first_at(s, x, i),
    ensures
        first_index(s, x) == i,
{
    let k = choose|k: int| is_first_at(s, x, k);
    assert(is_first_at(s, x, k));
    if k < i {
        assert(s[k] != x);
    }
    if i < k {
        assert(s[i] != x);
    }
}

/// `first_index` is -1 exactly when `x` does not occur.
pub proof fn lemma_first_index_absent<T>(s: Seq<T>, x: T)
    requires
        forall|j: int| 0 <= j < s.len() ==> s[j] != x,
    ensures
        first_index(s, x) == -1,
{
}

/// When `x` occurs, `first_index` finds its first occurrence.
pub proof fn lemma_first_index_found<T>(s: Seq<T>, x: T, j: int)
    requires
        0 <= j < s.len(),
        s[j] == x,
    ensures
        is_first_at(s, x, first_index(s, x)),
    decreases j,
{
    if forall|k: int| 0 <= k < j ==> s[k] != x {
        lemma_first_index_is(s, x, j);
    } else {
        let k = choose|k: int| 0 <= k < j && s[k] == x;
        lemma_first_index_found(s, x, k);
    }
}

/// The elements of `s` whose flag in `mask` is set, in order.
pub open spec fn filter_mask<T>(s: Seq<T>, mask: Seq<bool>) -> Seq<T>
    decreases s.len(),
{
    if s.len() == 0 {
        s
    } else {
        let r = filter_mask(s.drop_last(), mask.take(s.len() - 1));
        if mask[s.len() - 1] {
            r.push(s.last())
        } else {
            r
        }
    }
}

/// No element occurs twice in `s`.
pub open spec fn no_duplicates<T>(s: Seq<T>) -> bool {
    forall|i: int, j: int| 0 <= i < j < s.len() ==> s[i] != s[j]
}

/// Everything that `filter_mask` keeps was in `s`.
pub proof fn lemma_filter_mask_subset<T>(s: Seq<T>, mask: Seq<bool>)
    requires
        mask.len() == s.len(),
    ensures
        forall|k: int|
            0 <= k < filter_mask(s, mask).len() ==> s.contains(#[trigger] filter_mask(s, mask)[k]),
        filter_mask(s, mask).len() <= s.len(),
    decreases s.len(),
{
    if s.len() > 0 {
        let r = filter_mask(s.drop_last(), mask.take(s.len() - 1));
        lemma_filter_mask_subset(s.drop_last(), mask.take(s.len() - 1));
        assert forall|k: int|
            0 <= k < filter_mask(s, mask).len() implies s.contains(
            #[trigger] filter_mask(s, mask)[k],
        ) by {
            if k < r.len() {
                assert(filter_mask(s, mask)[k] == r[k]);
                let m = choose|m: int| 0 <= m < s.drop_last().len() && s.drop_last()[m] == r[k];
                assert(s[m] == r[k]);
            } else {
                assert(filter_mask(s, mask)[k] == s[s.len() - 1]);
            }
        }
    }
}

/// `filter_mask` keeps the order, so it keeps distinctness.
pub proof fn lemma_filter_mask_no_duplicates<T>(s: Seq<T>, mask: Seq<bool>)
    requires
        mask.len() == s.len(),
        no_duplicates(s),
    ensures
        no_duplicates(filter_mask(s, mask)),
    decreases s.len(),
{
    if s.len() > 0 {
        let d = s.drop_last();
        let r = filter_mask(d, mask.take(s.len() - 1));
        lemma_filter_mask_no_duplicates(d, mask.take(s.len() - 1));
        lemma_filter_mask_subset(d, mask.take(s.len() - 1));
        if mask[s.len() - 1] {
            assert forall|k: int| 0 <= k < r.len() implies r[k] != s.last() by {
                assert(d.contains(r[k]));
                let m = choose|m: int| 0 <= m < d.len() && d[m] == r[k];
                assert(s[m] == r[k]);
            }
        }
    }
}

/// `x` survives `filter_mask` when its flag is set.
pub proof fn lemma_filter_mask_keeps<T>(s: Seq<T>, mask: Seq<bool>, k: int)
    requires
        mask.len() == s.len(),
        0 <= k < s.len(),
        mask[k],
    ensures
        filter_mask(s, mask).contains(s[k]),
    decreases s.len(),
{
    let r = filter_mask(s.drop_last(), mask.take(s.len() - 1));
    if k == s.len() - 1 {
        assert(filter_mask(s, mask) == r.push(s.last()));
        assert(filter_mask(s, mask)[r.len() as int] == s[k]);
    } else {
        lemma_filter_mask_keeps(s.drop_last(), mask.take(s.len() - 1), k);
        let m = choose|m: int| 0 <= m < r.len() && r[m] == s[k];
        if mask[s.len() - 1] {
            assert(filter_mask(s, mask)[m] == r[m]);
        }
    }
}

/// Every element that `filter_mask` keeps comes from a flagged position.
pub proof fn lemma_filter_mask_from_flagged<T>(s: Seq<T>, mask: Seq<bool>, k: int)
    requires
        mask.len() == s.len(),
        0 <= k < filter_mask(s, mask).len(),
    ensures
        exists|j: int| 0 <= j < s.len() && mask[j] && s[j] == filter_mask(s, mask)[k],
    decreases s.len(),
{
    if s.len() > 0 {
        let d = s.drop_last();
        let m = mask.take(s.len() - 1);
        let r = filter_mask(d, m);
        if mask[s.len() - 1] && k == r.len() {
            let j = s.len() - 1;
            assert(mask[j] && s[j] == filter_mask(s, mask)[k]);
        } else {
            assert(filter_mask(s, mask)[k] == r[k]);
            lemma_filter_mask_from_flagged(d, m, k);
            let j = choose|j: int| 0 <= j < d.len() && m[j] && d[j] == r[k];
            assert(mask[j] && s[j] == filter_mask(s, mask)[k]);
        }
    }
}

} // verus!
