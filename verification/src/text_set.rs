//! A set of texts that is listed in ascending order.

use vstd::prelude::*;

use crate::text::{
    is_text_le, join, joined, lemma_text_order_total, same_text, text_le, text_order, texts,
};

verus! {

/// Whether the texts are in strictly ascending order, so that none occurs twice.
pub open spec fn ascending(list: Seq<Seq<char>>) -> bool {
    forall|i: int, j: int|
        0 <= i < j < list.len() ==> text_le(#[trigger] list[i], #[trigger] list[j]) && list[i]
            != list[j]
}

/// The members of a set of texts in ascending order.
pub open spec fn listing(set: Set<Seq<char>>) -> Seq<Seq<char>> {
    choose|list: Seq<Seq<char>>| ascending(list) && #[trigger] list.to_set() == set
}

proof fn lemma_ascending_unique(a: Seq<Seq<char>>, b: Seq<Seq<char>>)
    requires
        ascending(a),
        ascending(b),
        a.to_set() == b.to_set(),
    ensures
        a == b,
    decreases a.len(),
{
    let r = text_order();
    lemma_text_order_total();
    if a.len() == 0 {
        if b.len() > 0 {
            assert(b.to_set().contains(b[0]));
            assert(a.to_set().contains(b[0]));
        }
        assert(a =~= b);
    } else {
        assert(a.to_set().contains(a[0]));
        assert(b.to_set().contains(a[0]));
        assert(b.len() > 0);
        let (x, y) = (a.last(), b.last());
        assert(a.to_set().contains(x) && b.to_set().contains(y));
        assert(b.to_set().contains(x) && a.to_set().contains(y));
        let i = choose|i: int| 0 <= i < b.len() && b[i] == x;
        let j = choose|j: int| 0 <= j < a.len() && a[j] == y;
        assert(r(x, x) && r(y, y));
        assert(text_le(b[i], b[b.len() - 1]) || i == b.len() - 1);
        assert(text_le(a[j], a[a.len() - 1]) || j == a.len() - 1);
        assert(r(x, y) && r(y, x));
        assert(x == y);
        let (a1, b1) = (a.drop_last(), b.drop_last());
        assert forall|t: Seq<char>| a1.to_set().contains(t) == b1.to_set().contains(t) by {
            if a1.contains(t) {
                let k = choose|k: int| 0 <= k < a1.len() && a1[k] == t;
                assert(a[k] == t && a[k] != a[a.len() - 1]);
                assert(a.to_set().contains(t));
                assert(b.to_set().contains(t));
                let m = choose|m: int| 0 <= m < b.len() && b[m] == t;
                assert(b1[m] == t);
            }
            if b1.contains(t) {
                let k = choose|k: int| 0 <= k < b1.len() && b1[k] == t;
                assert(b[k] == t && b[k] != b[b.len() - 1]);
                assert(b.to_set().contains(t));
                assert(a.to_set().contains(t));
                let m = choose|m: int| 0 <= m < a.len() && a[m] == t;
                assert(a1[m] == t);
            }
        }
        assert(a1.to_set() =~= b1.to_set());
        assert forall|p: int, q: int| 0 <= p < q < a1.len() implies text_le(
            #[trigger] a1[p],
            #[trigger] a1[q],
        ) && a1[p] != a1[q] by {
            assert(a1[p] == a[p] && a1[q] == a[q]);
        }
        assert forall|p: int, q: int| 0 <= p < q < b1.len() implies text_le(
            #[trigger] b1[p],
            #[trigger] b1[q],
        ) && b1[p] != b1[q] by {
            assert(b1[p] == b[p] && b1[q] == b[q]);
        }
        lemma_ascending_unique(a1, b1);
        assert(a =~= a1.push(x));
        assert(b =~= b1.push(x));
    }
}

/// An ascending list is the listing of its members.
pub proof fn lemma_listing(list: Seq<Seq<char>>)
    requires
        ascending(list),
    ensures
        listing(list.to_set()) == list,
{
    let l = listing(list.to_set());
    assert(ascending(l) && l.to_set() == list.to_set());
    lemma_ascending_unique(l, list);
}

/// Every finite set of texts can be listed in ascending order.
pub proof fn lemma_listing_of(set: Set<Seq<char>>)
    requires
        set.finite(),
    ensures
        ascending(listing(set)),
        listing(set).to_set() == set,
{
    lemma_text_order_total();
    let list = set.to_seq();
    let sorted = list.sort_by(text_order());
    set.lemma_to_seq_to_set_id();
    lemma_to_seq_no_duplicates(set);
    list.lemma_sort_by_ensures(text_order());
    list.lemma_multiset_has_no_duplicates();
    list.to_multiset_ensures();
    sorted.to_multiset_ensures();
    sorted.lemma_multiset_has_no_duplicates_conv();
    assert forall|x: Seq<char>| sorted.to_set().contains(x) == set.contains(x) by {
        assert(sorted.contains(x) == (sorted.to_multiset().count(x) > 0));
        assert(list.contains(x) == (list.to_multiset().count(x) > 0));
        assert(list.to_set().contains(x) == set.contains(x));
    }
    assert(sorted.to_set() =~= set);
    assert forall|i: int, j: int| 0 <= i < j < sorted.len() implies text_le(
        #[trigger] sorted[i],
        #[trigger] sorted[j],
    ) && sorted[i] != sorted[j] by {
        let r = text_order();
        assert(r(sorted[i], sorted[j]));
    }
    assert(ascending(sorted) && sorted.to_set() == set);
}

proof fn lemma_to_seq_no_duplicates(set: Set<Seq<char>>)
    requires
        set.finite(),
    ensures
        set.to_seq().no_duplicates(),
    decreases set.len(),
{
    if set.len() > 0 {
        let x = set.choose();
        let rest = set.remove(x);
        lemma_to_seq_no_duplicates(rest);
        rest.lemma_to_seq_to_set_id();
        assert forall|i: int| 0 <= i < rest.to_seq().len() implies rest.to_seq()[i] != x by {
            assert(rest.to_seq().to_set().contains(rest.to_seq()[i]));
        }
        assert(set.to_seq() =~= seq![x] + rest.to_seq());
    }
}

/// A set of texts.
pub struct TextSet {
    items: Vec<String>,
}

impl View for TextSet {
    type V = Set<Seq<char>>;

    closed spec fn view(&self) -> Set<Seq<char>> {
        texts(self.items@).to_set()
    }
}

impl TextSet {
    /// The members are held in ascending order.
    pub closed spec fn wf(&self) -> bool {
        ascending(texts(self.items@))
    }

    /// The empty set.
    pub fn new() -> (r: TextSet)
        ensures
            r.wf(),
            r@ == Set::<Seq<char>>::empty(),
    {
        let r = TextSet { items: Vec::new() };
        assert(r@ =~= Set::<Seq<char>>::empty());
        r
    }

    /// Adds a text. Returns whether it was not there before.
    pub fn insert(&mut self, s: String) -> (added: bool)
        requires
            old(self).wf(),
        ensures
            final(self).wf(),
            final(self)@ == old(self)@.insert(s@),
            added == !old(self)@.contains(s@),
    {
        let ghost before = texts(self.items@);
        let mut at: usize = self.items.len();
        while at > 0 && !is_text_le(self.items[at - 1].as_str(), s.as_str())
            invariant
                at <= self.items@.len(),
                texts(self.items@) == before,
                forall|k: int| at <= k < before.len() ==> !text_le(#[trigger] before[k], s@),
            decreases at,
        {
            assert(before[at - 1] == self.items@[at - 1]@);
            at = at - 1;
        }
        proof {
            lemma_text_order_total();
        }
        let ghost r = text_order();
        if at > 0 && same_text(self.items[at - 1].as_str(), s.as_str()) {
            assert(before[at - 1] == s@);
            assert(before.to_set().contains(s@));
            assert(before.to_set().insert(s@) =~= before.to_set());
            return false;
        }
        proof {
            if at > 0 {
                assert(before[at - 1] == self.items@[at - 1]@);
            }
            if before.to_set().contains(s@) {
                let k = choose|k: int| 0 <= k < before.len() && before[k] == s@;
                assert(r(s@, s@));
                assert(k < at);
                if k < at - 1 {
                    assert(text_le(before[k], before[at - 1]) && before[k] != before[at - 1]);
                    assert(r(before[at - 1], s@) && r(s@, before[at - 1]));
                }
                assert(false);
            }
        }
        self.items.insert(at, s);
        proof {
            let after = texts(self.items@);
            assert(after =~= before.insert(at as int, s@));
            assert forall|i: int, j: int| 0 <= i < j < after.len() implies text_le(
                #[trigger] after[i],
                #[trigger] after[j],
            ) && after[i] != after[j] by {
                if j < at {
                    assert(after[i] == before[i] && after[j] == before[j]);
                } else if j == at {
                    assert(after[i] == before[i]);
                    assert(r(before[at - 1], s@));
                    if i < at - 1 {
                        assert(text_le(before[i], before[at - 1]));
                        assert(r(before[i], before[at - 1]));
                    }
                    assert(r(before[i], s@));
                    assert(before.to_set().contains(before[i]));
                } else if i == at {
                    assert(after[j] == before[j - 1]);
                    assert(r(s@, before[j - 1]) || r(before[j - 1], s@));
                    assert(before.to_set().contains(before[j - 1]));
                } else if i < at {
                    assert(after[i] == before[i] && after[j] == before[j - 1]);
                } else {
                    assert(after[i] == before[i - 1] && after[j] == before[j - 1]);
                }
            }
            assert forall|t: Seq<char>|
                after.to_set().contains(t) == before.to_set().insert(s@).contains(t) by {
                if after.contains(t) {
                    let k = choose|k: int| 0 <= k < after.len() && after[k] == t;
                    if k < at {
                        assert(before[k] == t);
                    } else if k > at {
                        assert(before[k - 1] == t);
                    }
                }
                if before.contains(t) {
                    let k = choose|k: int| 0 <= k < before.len() && before[k] == t;
                    if k < at {
                        assert(after[k] == t);
                    } else {
                        assert(after[k + 1] == t);
                    }
                }
                assert(after[at as int] == s@);
            }
            assert(self@ =~= before.to_set().insert(s@));
        }
        true
    }

    /// The set of the texts of `list`.
    pub fn from_list(list: &Vec<String>) -> (r: TextSet)
        ensures
            r.wf(),
            r@ == texts(list@).to_set(),
    {
        let mut r = TextSet::new();
        assert(texts(list@).take(0).to_set() =~= Set::<Seq<char>>::empty());
        for i in 0..list.len()
            invariant
                r.wf(),
                r@ == texts(list@).take(i as int).to_set(),
        {
            r.insert(list[i].clone());
            proof {
                let upto = texts(list@).take(i + 1);
                assert(upto =~= texts(list@).take(i as int).push(list@[i as int]@));
                texts(list@).take(i as int).lemma_push_to_set_commute(list@[i as int]@);
            }
        }
        assert(texts(list@).take(list@.len() as int) =~= texts(list@));
        r
    }

    /// Whether `s` is a member.
    pub fn contains(&self, s: &str) -> (r: bool)
        ensures
            r == self@.contains(s@),
    {
        crate::text::contains_text(&self.items, s)
    }

    /// The number of members.
    pub fn len(&self) -> (r: usize)
        requires
            self.wf(),
        ensures
            r == self@.len(),
    {
        proof {
            let list = texts(self.items@);
            assert(list.no_duplicates());
            list.unique_seq_to_set();
        }
        self.items.len()
    }

    /// The members in ascending order, with `sep` between them.
    pub fn join(&self, sep: &str) -> (r: String)
        requires
            self.wf(),
        ensures
            r@ == joined(listing(self@), sep@),
    {
        proof {
            lemma_listing(texts(self.items@));
        }
        join(&self.items, sep)
    }
}

/// The listing of a set has each member once and nothing else, ordered by code points.
pub proof fn law_listing(set: Set<Seq<char>>, a: Seq<char>)
    requires
        set.finite(),
    ensures
        listing(set).contains(a) <==> set.contains(a),
        listing(set).no_duplicates(),
        forall|i: int, j: int|
            0 <= i < j < listing(set).len() ==> text_le(
                #[trigger] listing(set)[i],
                #[trigger] listing(set)[j],
            ),
{
    lemma_listing_of(set);
    assert(listing(set).to_set().contains(a) == set.contains(a));
}

} // verus!
