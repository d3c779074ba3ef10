//! Positions of a list in the order of the timestamps that belong to them.

use vstd::prelude::*;
use vstd::relations::{sorted_by, total_ordering};

verus! {

/// Whether one timestamp is later than another; no timestamp is earlier than any.
pub open spec fn later(a: Option<i64>, b: Option<i64>) -> bool {
    match a {
        Some(x) => match b {
            Some(y) => x > y,
            None => true,
        },
        None => false,
    }
}

/// Whether position `a` comes before position `b`, or is the same: its timestamp is later, or
/// the timestamps are equal and it stands first.
pub open spec fn comes_first(stamps: Seq<Option<i64>>, a: int, b: int) -> bool {
    later(stamps[a], stamps[b]) || (stamps[a] == stamps[b] && a <= b)
}

/// `comes_first` as a function value.
pub open spec fn stamp_order(stamps: Seq<Option<i64>>) -> spec_fn(int, int) -> bool {
    |a: int, b: int| comes_first(stamps, a, b)
}

/// The positions `0..n`, ascending.
pub open spec fn positions(n: nat) -> Seq<int> {
    Seq::new(n, |i: int| i)
}

/// The positions of the timestamps, the latest first, and the positions of equal timestamps
/// ascending.
pub open spec fn latest_first(stamps: Seq<Option<i64>>) -> Seq<int> {
    positions(stamps.len()).sort_by(stamp_order(stamps))
}

/// Positions as integers.
pub open spec fn ints(list: Seq<usize>) -> Seq<int> {
    list.map_values(|i: usize| i as int)
}

/// The order of the positions is total.
pub proof fn lemma_stamp_order_total(stamps: Seq<Option<i64>>)
    ensures
        total_ordering(stamp_order(stamps)),
{
}

/// What `latest_first` says: every position occurs once, and each comes before the ones that
/// follow it.
pub proof fn lemma_latest_first(stamps: Seq<Option<i64>>)
    ensures
        ({
            let order = latest_first(stamps);
            &&& order.len() == stamps.len()
            &&& order.no_duplicates()
            &&& order.to_set() == positions(stamps.len()).to_set()
            &&& forall|k: int| 0 <= k < order.len() ==> 0 <= #[trigger] order[k] < stamps.len()
            &&& forall|j: int, k: int|
                0 <= j < k < order.len() ==> comes_first(
                    stamps,
                    #[trigger] order[j],
                    #[trigger] order[k],
                )
        }),
{
    let all = positions(stamps.len());
    let order = latest_first(stamps);
    lemma_stamp_order_total(stamps);
    all.lemma_sort_by_ensures(stamp_order(stamps));
    order.to_multiset_ensures();
    all.to_multiset_ensures();
    assert(order.len() == stamps.len());
    all.lemma_multiset_has_no_duplicates();
    order.lemma_multiset_has_no_duplicates_conv();
    assert forall|x: int| order.to_set().contains(x) == all.to_set().contains(x) by {
        assert(order.contains(x) == (order.to_multiset().count(x) > 0));
        assert(all.contains(x) == (all.to_multiset().count(x) > 0));
    }
    assert(order.to_set() =~= all.to_set());
    assert forall|k: int| 0 <= k < order.len() implies 0 <= #[trigger] order[k] < stamps.len() by {
        assert(order.to_set().contains(order[k]));
        assert(all.contains(order[k]));
    }
    let leq = stamp_order(stamps);
    assert forall|j: int, k: int| 0 <= j < k < order.len() implies comes_first(
        stamps,
        #[trigger] order[j],
        #[trigger] order[k],
    ) by {
        assert(leq(order[j], order[k]));
    }
}

/// Two lists with the same items have the same items after a function was applied to each.
pub proof fn lemma_same_items_mapped<A, B>(a: Seq<A>, b: Seq<A>, f: spec_fn(A) -> B)
    requires
        a.to_multiset() == b.to_multiset(),
    ensures
        a.map_values(f).to_multiset() == b.map_values(f).to_multiset(),
    decreases a.len(),
{
    a.to_multiset_ensures();
    b.to_multiset_ensures();
    assert(a.len() == b.len());
    if a.len() == 0 {
        assert(a =~= b);
    } else {
        let x = a.last();
        assert(a.to_multiset().count(x) > 0);
        assert(b.contains(x));
        let k = b.index_of(x);
        let rest = b.remove(k);
        assert(a =~= a.drop_last().push(x));
        vstd::seq_lib::to_multiset_build(a.drop_last(), x);
        assert(b =~= rest.insert(k, x));
        vstd::seq_lib::to_multiset_insert(rest, k, x);
        assert(a.drop_last().to_multiset() =~= a.to_multiset().remove(x));
        assert(rest.to_multiset() =~= b.to_multiset().remove(x));
        lemma_same_items_mapped(a.drop_last(), rest, f);
        assert(a.map_values(f) =~= a.drop_last().map_values(f).push(f(x)));
        assert(b.map_values(f) =~= rest.map_values(f).insert(k, f(x)));
        vstd::seq_lib::to_multiset_build(a.drop_last().map_values(f), f(x));
        vstd::seq_lib::to_multiset_insert(rest.map_values(f), k, f(x));
    }
}

/// The members of a filtered list are the members of the list that pass the filter.
pub proof fn lemma_filter_members<A>(list: Seq<A>, f: spec_fn(A) -> bool, a: A)
    ensures
        list.filter(f).contains(a) <==> list.contains(a) && f(a),
{
    if list.filter(f).contains(a) {
        list.lemma_filter_contains_rev(f, a);
        list.lemma_filter_pred(f, list.filter(f).index_of(a));
    }
    if list.contains(a) && f(a) {
        list.lemma_filter_contains(f, list.index_of(a));
    }
}

fn is_later(a: Option<i64>, b: Option<i64>) -> (r: bool)
    ensures
        r == later(a, b),
{
    match a {
        Some(x) => match b {
            Some(y) => x > y,
            None => true,
        },
        None => false,
    }
}

/// Orders the positions of the timestamps.
pub fn order_latest_first(stamps: &Vec<Option<i64>>) -> (r: Vec<usize>)
    ensures
        ints(r@) == latest_first(stamps@),
{
    let mut order: Vec<usize> = Vec::new();
    let ghost leq = stamp_order(stamps@);
    proof {
        lemma_stamp_order_total(stamps@);
        assert(ints(order@) =~= Seq::<int>::empty());
        assert(positions(0) =~= Seq::<int>::empty());
    }
    for i in 0..stamps.len()
        invariant
            leq == stamp_order(stamps@),
            order@.len() == i,
            forall|k: int| 0 <= k < order@.len() ==> #[trigger] order@[k] < i,
            sorted_by(ints(order@), leq),
            ints(order@).to_multiset() == positions(i as nat).to_multiset(),
    {
        let mut at: usize = order.len();
        while at > 0 && is_later(stamps[i], stamps[order[at - 1]])
            invariant
                i < stamps@.len(),
                at <= order@.len(),
                forall|k: int| 0 <= k < order@.len() ==> #[trigger] order@[k] < i,
                forall|k: int|
                    at <= k < order@.len() ==> later(
                        stamps@[i as int],
                        stamps@[#[trigger] order@[k] as int],
                    ),
            decreases at,
        {
            at = at - 1;
        }
        let ghost before = order@;
        order.insert(at, i);
        proof {
            assert(ints(order@) =~= ints(before).insert(at as int, i as int));
            assert forall|j: int, k: int| 0 <= j < k < ints(order@).len() implies leq(
                #[trigger] ints(order@)[j],
                #[trigger] ints(order@)[k],
            ) by {
                if k < at {
                    assert(leq(ints(before)[j], ints(before)[k]));
                } else if k == at {
                    assert(leq(before[at - 1] as int, i as int));
                    if j < at - 1 {
                        assert(leq(ints(before)[j], ints(before)[at - 1]));
                    }
                } else if j == at {
                    assert(later(stamps@[i as int], stamps@[before[k - 1] as int]));
                } else if j < at {
                    assert(leq(ints(before)[j], ints(before)[k - 1]));
                } else {
                    assert(leq(ints(before)[j - 1], ints(before)[k - 1]));
                }
            }
            assert forall|k: int| 0 <= k < order@.len() implies #[trigger] order@[k] < i + 1 by {
                if k < at {
                    assert(order@[k] == before[k]);
                } else if k > at {
                    assert(order@[k] == before[k - 1]);
                }
            }
            vstd::seq_lib::to_multiset_insert(ints(before), at as int, i as int);
            assert(positions((i + 1) as nat) =~= positions(i as nat).push(i as int));
            vstd::seq_lib::to_multiset_build(positions(i as nat), i as int);
        }
    }
    proof {
        let all = positions(stamps@.len());
        all.lemma_sort_by_ensures(leq);
        vstd::seq_lib::lemma_sorted_unique(ints(order@), latest_first(stamps@), leq);
    }
    order
}

/// A later time comes before an earlier one, any time comes before none, and of two equal ones the
/// first comes first.
pub proof fn law_latest_comes_first(stamps: Seq<Option<i64>>, j: int, k: int)
    requires
        0 <= j < k < stamps.len(),
    ensures
        ({
            let a = latest_first(stamps)[j];
            let b = latest_first(stamps)[k];
            &&& latest_first(stamps).len() == stamps.len()
            &&& 0 <= a < stamps.len()
            &&& 0 <= b < stamps.len()
            &&& a != b
            &&& match (stamps[a], stamps[b]) {
                (Some(x), Some(y)) => x > y || (x == y && a < b),
                (Some(_), None) => true,
                (None, Some(_)) => false,
                (None, None) => a < b,
            }
        }),
{
    lemma_latest_first(stamps);
    assert(comes_first(stamps, latest_first(stamps)[j], latest_first(stamps)[k]));
}

} // verus!
