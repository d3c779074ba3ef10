//! What holds of the transports of an account, whatever is synchronized.

use vstd::prelude::*;

use crate::order;
use crate::transport_store;
use crate::transport_store::{
    is_newest, newer, newest_first, sync_removals, unpublished_removals, Offer, Removal,
    TransportData, TransportStore, Transports,
};

verus! {

/// Whether the state is valid and has identifiers left for `n` new transports.
pub open spec fn has_room(s: Transports, n: nat) -> bool {
    &&& s.wf()
    &&& 0 <= s.next_id
    &&& s.next_id + n <= u32::MAX
}

/// A nonempty table has a newest transport.
pub proof fn lemma_newest_exists(s: Transports)
    requires
        s.wf(),
        s.table.dom().len() > 0,
    ensures
        exists|a: Seq<char>| is_newest(s.table, a),
    decreases s.table.dom().len(),
{
    let a = s.table.dom().choose();
    assert(s.table.dom().contains(a)) by {
        if s.table.dom() =~= Set::empty() {
        }
    }
    let rest = Transports { table: s.table.remove(a), ..s };
    assert(rest.table.dom() =~= s.table.dom().remove(a));
    if rest.table.dom().len() == 0 {
        rest.table.dom().lemma_len0_is_empty();
        assert forall|b: Seq<char>| #[trigger]
            s.table.contains_key(b) && b != a implies newer(s.table[a], s.table[b]) by {
            assert(rest.table.dom().contains(b));
        }
        assert(is_newest(s.table, a));
    } else {
        assert(rest.wf()) by {
            assert forall|x: Seq<char>, y: Seq<char>| #[trigger]
                rest.table.contains_key(x) && #[trigger] rest.table.contains_key(y) && x
                    != y implies rest.table[x].id != rest.table[y].id by {
                assert(s.table.contains_key(x) && s.table.contains_key(y));
            }
            assert forall|x: Seq<char>| #[trigger] rest.table.contains_key(x) implies rest.table[x].id
                < rest.next_id by {
                assert(s.table.contains_key(x));
            }
        }
        lemma_newest_exists(rest);
        let m = choose|m: Seq<char>| is_newest(rest.table, m);
        assert(s.table.contains_key(m) && s.table.contains_key(a));
        assert(s.table[m].id != s.table[a].id);
        if newer(s.table[a], s.table[m]) {
            assert forall|b: Seq<char>| #[trigger]
                s.table.contains_key(b) && b != a implies newer(s.table[a], s.table[b]) by {
                assert(rest.table.contains_key(b));
            }
            assert(is_newest(s.table, a));
        } else {
            assert(newer(s.table[m], s.table[a]));
            assert forall|b: Seq<char>| #[trigger]
                s.table.contains_key(b) && b != m implies newer(s.table[m], s.table[b]) by {
                if b != a {
                    assert(rest.table.contains_key(b));
                }
            }
            assert(is_newest(s.table, m));
        }
    }
}

proof fn lemma_saved_wf(s: Transports, o: Offer)
    requires
        s.wf(),
        0 <= s.next_id <= u32::MAX,
    ensures
        s.saved(o).wf(),
        s.saved(o).next_id <= s.next_id + 1,
        s.saved(o).next_id >= s.next_id,
        s.table.dom().subset_of(s.saved(o).table.dom()),
        s.saved(o).table.contains_key(o.addr),
{
    let t = s.saved(o);
    assert(t.table.dom() =~= s.table.dom().insert(o.addr));
    assert forall|a: Seq<char>| #[trigger] t.table.contains_key(a) implies t.table[a].id
        < t.next_id by {
        if a != o.addr {
            assert(s.table.contains_key(a));
        }
    }
    assert forall|a: Seq<char>, b: Seq<char>| #[trigger]
        t.table.contains_key(a) && #[trigger] t.table.contains_key(b) && a != b implies t.table[a].id
        != t.table[b].id by {
        if a != o.addr {
            assert(s.table.contains_key(a));
        }
        if b != o.addr {
            assert(s.table.contains_key(b));
        }
    }
}

pub(crate) proof fn lemma_after_offers(s: Transports, offers: Seq<Offer>)
    requires
        has_room(s, offers.len()),
    ensures
        s.after_offers(offers).wf(),
        s.next_id <= s.after_offers(offers).next_id <= s.next_id + offers.len(),
        s.after_offers(offers).removed == s.removed,
        s.table.dom().subset_of(s.after_offers(offers).table.dom()),
        s.primary is Some ==> s.after_offers(offers).primary == s.primary,
    decreases offers.len(),
{
    if offers.len() > 0 {
        lemma_after_offers(s, offers.drop_last());
        lemma_saved_wf(s.after_offers(offers.drop_last()), offers.last());
    }
}

proof fn lemma_deleted_wf(s: Transports, r: Removal)
    requires
        s.wf(),
    ensures
        s.deleted(r).wf(),
{
    let t = s.deleted(r);
    assert(t.table.dom().subset_of(s.table.dom()));
    assert forall|a: Seq<char>| #[trigger] t.table.contains_key(a) implies t.table[a].id
        < t.next_id by {
        assert(s.table.contains_key(a));
    }
    assert forall|a: Seq<char>, b: Seq<char>| #[trigger]
        t.table.contains_key(a) && #[trigger] t.table.contains_key(b) && a != b implies t.table[a].id
        != t.table[b].id by {
        assert(s.table.contains_key(a) && s.table.contains_key(b));
    }
}

/// What the removals leave: transports as they were, at least one of them, and every removal
/// that was remembered before.
pub(crate) proof fn lemma_after_removals(s: Transports, removals: Seq<Removal>)
    requires
        s.wf(),
    ensures
        ({
            let t = s.after_removals(removals);
            &&& t.wf()
            &&& t.primary == s.primary
            &&& t.next_id == s.next_id
            &&& s.table.dom().len() > 0 ==> t.table.dom().len() > 0
            &&& forall|a: Seq<char>| #[trigger]
                t.table.contains_key(a) ==> s.table.contains_key(a) && t.table[a] == s.table[a]
            &&& forall|a: Seq<char>, n: i64| #[trigger]
                s.removed_since(a, n) ==> t.removed_since(a, n)
            &&& forall|a: Seq<char>| #[trigger]
                s.table.contains_key(a) && !t.table.contains_key(a) ==> t.removed_since(
                    a,
                    s.table[a].add_timestamp,
                )
        }),
    decreases removals.len(),
{
    if removals.len() > 0 {
        let b = s.after_removals(removals.drop_last());
        lemma_after_removals(s, removals.drop_last());
        let r = removals.last();
        if b.table.dom().len() > 1 {
            lemma_deleted_wf(b, r);
            let t = b.deleted(r);
            assert(t.table.dom().len() >= b.table.dom().len() - 1);
            assert forall|a: Seq<char>, n: i64| #[trigger]
                s.removed_since(a, n) implies t.removed_since(a, n) by {
                assert(b.removed_since(a, n));
            }
            assert forall|a: Seq<char>| #[trigger]
                s.table.contains_key(a) && !t.table.contains_key(a) implies t.removed_since(
                a,
                s.table[a].add_timestamp,
            ) by {
                if b.table.contains_key(a) {
                    assert(a == r.addr);
                    assert(b.table[a] == s.table[a]);
                } else {
                    assert(b.removed_since(a, s.table[a].add_timestamp));
                }
            }
            assert forall|a: Seq<char>| #[trigger] t.table.contains_key(a) implies s.table.contains_key(
                a,
            ) && t.table[a] == s.table[a] by {
                assert(b.table.contains_key(a));
            }
        }
    }
}

proof fn lemma_elected(s: Transports)
    requires
        s.wf(),
    ensures
        s.elected().table == s.table,
        s.elected().removed == s.removed,
        s.elected().next_id == s.next_id,
        s.elected().primary is Some == s.primary is Some,
        !s.elected().needs_election(),
        s.needs_election() ==> is_newest(s.table, s.elected().primary->0),
{
    if s.needs_election() {
        lemma_newest_exists(s);
    }
}

/// Synchronization never removes the last transport: an account that has one keeps one.
pub proof fn law_sync_keeps_a_transport(s: Transports, offers: Seq<Offer>, removed: Seq<Removal>)
    requires
        has_room(s, offers.len()),
        s.table.dom().len() > 0,
    ensures
        s.synced(offers, removed).table.dom().len() > 0,
{
    let saved = s.after_offers(offers);
    lemma_after_offers(s, offers);
    vstd::set_lib::lemma_len_subset(s.table.dom(), saved.table.dom());
    lemma_after_removals(saved, sync_removals(offers, removed));
    lemma_elected(saved.after_removals(sync_removals(offers, removed)));
}

/// After a successful synchronization the sending address is the address of a transport,
/// as long as there is one.
pub proof fn law_sending_address_has_a_transport(
    s: Transports,
    offers: Seq<Offer>,
    removed: Seq<Removal>,
)
    requires
        has_room(s, offers.len()),
        s.sync_succeeds(offers),
        s.synced(offers, removed).table.dom().len() > 0,
    ensures
        s.synced(offers, removed).primary is Some,
        s.synced(offers, removed).table.contains_key(s.synced(offers, removed).primary->0),
{
    let saved = s.after_offers(offers);
    lemma_after_offers(s, offers);
    lemma_after_removals(saved, sync_removals(offers, removed));
    lemma_elected(saved.after_removals(sync_removals(offers, removed)));
}

/// The sending address only moves when its transport is gone, and then to the newest transport.
pub proof fn law_sending_address_moves_to_the_newest(
    s: Transports,
    offers: Seq<Offer>,
    removed: Seq<Removal>,
)
    requires
        has_room(s, offers.len()),
        s.primary is Some,
        s.synced(offers, removed).primary != s.primary,
    ensures
        !s.synced(offers, removed).table.contains_key(s.primary->0),
        is_newest(s.synced(offers, removed).table, s.synced(offers, removed).primary->0),
{
    let saved = s.after_offers(offers);
    lemma_after_offers(s, offers);
    lemma_after_removals(saved, sync_removals(offers, removed));
    lemma_elected(saved.after_removals(sync_removals(offers, removed)));
}

/// A remembered removal is never forgotten nor moved back in time.
pub proof fn law_removals_are_remembered(
    s: Transports,
    offers: Seq<Offer>,
    removed: Seq<Removal>,
    addr: Seq<char>,
)
    requires
        has_room(s, offers.len()),
        s.removed.contains_key(addr),
    ensures
        s.synced(offers, removed).removed.contains_key(addr),
        s.synced(offers, removed).removed[addr] >= s.removed[addr],
{
    let saved = s.after_offers(offers);
    lemma_after_offers(s, offers);
    lemma_after_removals(saved, sync_removals(offers, removed));
    lemma_elected(saved.after_removals(sync_removals(offers, removed)));
    assert(saved.removed_since(addr, s.removed[addr]));
}

proof fn lemma_no_new_entry(s: Transports, offers: Seq<Offer>, addr: Seq<char>)
    requires
        has_room(s, offers.len()),
        !s.table.contains_key(addr),
        forall|i: int| 0 <= i < offers.len() && (#[trigger] offers[i]).addr == addr ==> !s.accepts(
            offers[i],
        ),
    ensures
        !s.after_offers(offers).table.contains_key(addr),
    decreases offers.len(),
{
    if offers.len() > 0 {
        assert forall|i: int|
            0 <= i < offers.drop_last().len() && (#[trigger] offers.drop_last()[i]).addr
                == addr implies !s.accepts(offers.drop_last()[i]) by {
            assert(offers.drop_last()[i] == offers[i]);
        }
        lemma_no_new_entry(s, offers.drop_last(), addr);
        lemma_after_offers(s, offers.drop_last());
        assert(offers.last() == offers[offers.len() - 1]);
    }
}

/// A removed transport is not resurrected by offers that are not later than its removal:
/// the removal wins a tie.
pub proof fn law_removed_transport_is_not_resurrected(
    s: Transports,
    offers: Seq<Offer>,
    removed: Seq<Removal>,
    addr: Seq<char>,
)
    requires
        has_room(s, offers.len()),
        !s.table.contains_key(addr),
        s.removed.contains_key(addr),
        forall|i: int|
            0 <= i < offers.len() && (#[trigger] offers[i]).addr == addr ==> offers[i].timestamp
                <= s.removed[addr],
    ensures
        !s.synced(offers, removed).table.contains_key(addr),
{
    let saved = s.after_offers(offers);
    lemma_after_offers(s, offers);
    lemma_no_new_entry(s, offers, addr);
    lemma_after_removals(saved, sync_removals(offers, removed));
    lemma_elected(saved.after_removals(sync_removals(offers, removed)));
}

/// The entry that an offer left behind: its address is there, not older than the offer.
proof fn lemma_offer_entered(s: Transports, offers: Seq<Offer>, addr: Seq<char>, since: int)
    requires
        has_room(s, offers.len()),
        s.offers_valid(offers),
        forall|i: int|
            0 <= i < offers.len() && (#[trigger] offers[i]).addr == addr && s.accepts(offers[i])
                ==> offers[i].timestamp > since,
        exists|i: int|
            0 <= i < offers.len() && (#[trigger] offers[i]).addr == addr && s.accepts(offers[i]),
    ensures
        s.after_offers(offers).table.contains_key(addr),
        s.after_offers(offers).table[addr].add_timestamp > since,
    decreases offers.len(),
{
    let front = offers.drop_last();
    let last = offers.last();
    assert(last == offers[offers.len() - 1]);
    lemma_after_offers(s, front);
    assert forall|i: int| 0 <= i < front.len() implies #[trigger] front[i] == offers[i] by {}
    assert(s.offers_valid(front)) by {
        assert forall|i: int| 0 <= i < front.len() && s.accepts(#[trigger] front[i]) implies front[i].valid() by {
            assert(front[i] == offers[i]);
        }
    }
    let in_front = exists|i: int|
        0 <= i < front.len() && (#[trigger] front[i]).addr == addr && s.accepts(front[i]);
    if in_front {
        lemma_offer_entered(s, front, addr, since);
    } else {
        let i = choose|i: int|
            0 <= i < offers.len() && (#[trigger] offers[i]).addr == addr && s.accepts(offers[i]);
        if i < front.len() {
            assert(front[i] == offers[i]);
        }
        assert(i == offers.len() - 1);
    }
}

/// No removal deletes a transport that was added later than all of them.
proof fn lemma_survives(s: Transports, removals: Seq<Removal>, addr: Seq<char>)
    requires
        s.table.contains_key(addr),
        forall|i: int|
            0 <= i < removals.len() && (#[trigger] removals[i]).addr == addr
                ==> removals[i].timestamp < s.table[addr].add_timestamp,
    ensures
        s.after_removals(removals).table.contains_key(addr),
        s.after_removals(removals).table[addr] == s.table[addr],
    decreases removals.len(),
{
    if removals.len() > 0 {
        assert forall|i: int|
            0 <= i < removals.drop_last().len() && (#[trigger] removals.drop_last()[i]).addr
                == addr implies removals.drop_last()[i].timestamp
            < s.table[addr].add_timestamp by {
            assert(removals.drop_last()[i] == removals[i]);
        }
        lemma_survives(s, removals.drop_last(), addr);
        assert(removals.last() == removals[removals.len() - 1]);
    }
}

/// An accepted offer arrives: its address has a transport afterwards, unless the same message
/// removes the address at the time of an accepted offer or later.
pub proof fn law_accepted_offer_arrives(
    s: Transports,
    offers: Seq<Offer>,
    removed: Seq<Removal>,
    addr: Seq<char>,
)
    requires
        has_room(s, offers.len()),
        s.offers_valid(offers),
        exists|i: int|
            0 <= i < offers.len() && (#[trigger] offers[i]).addr == addr && s.accepts(offers[i]),
        forall|i: int, k: int|
            0 <= i < offers.len() && 0 <= k < sync_removals(offers, removed).len() && (
            #[trigger] offers[i]).addr == addr && s.accepts(offers[i]) && (
            #[trigger] sync_removals(offers, removed)[k]).addr == addr ==> sync_removals(
                offers,
                removed,
            )[k].timestamp < offers[i].timestamp,
    ensures
        s.synced(offers, removed).table.contains_key(addr),
{
    let removals = sync_removals(offers, removed);
    let saved = s.after_offers(offers);
    lemma_after_offers(s, offers);
    lemma_offer_entered(s, offers, addr, i64::MIN as int - 1);
    assert forall|k: int| 0 <= k < removals.len() && (#[trigger] removals[k]).addr
        == addr implies removals[k].timestamp < saved.table[addr].add_timestamp by {
        lemma_offer_entered(s, offers, addr, removals[k].timestamp as int);
    }
    lemma_survives(saved, removals, addr);
    lemma_after_removals(saved, removals);
    lemma_elected(saved.after_removals(removals));
}

proof fn lemma_unmodified_offers(s: Transports, offers: Seq<Offer>)
    requires
        !s.offers_modify(offers),
    ensures
        s.after_offers(offers) == s,
    decreases offers.len(),
{
    if offers.len() > 0 {
        lemma_unmodified_offers(s, offers.drop_last());
        assert(s.accepts(offers.last()) ==> s.saved(offers.last()) =~= s);
    }
}

proof fn lemma_unmodified_removals(s: Transports, removals: Seq<Removal>)
    requires
        s.removal_ids(removals).len() == 0,
    ensures
        s.after_removals(removals).table == s.table,
        s.after_removals(removals).primary == s.primary,
    decreases removals.len(),
{
    if removals.len() > 0 {
        lemma_unmodified_removals(s, removals.drop_last());
    }
}

/// When a synchronization reports no modification, the transports and the sending address
/// are what they were.
pub proof fn law_unmodified_means_unchanged(
    s: Transports,
    offers: Seq<Offer>,
    removed: Seq<Removal>,
)
    requires
        !s.sync_modifies(offers, removed),
    ensures
        s.synced(offers, removed).table == s.table,
        s.synced(offers, removed).primary == s.primary,
{
    lemma_unmodified_offers(s, offers);
    lemma_unmodified_removals(s, sync_removals(offers, removed));
}

/// Whether two published offers for one address never differ in their parameters.
pub open spec fn consistent(offers: Seq<Offer>) -> bool {
    forall|i: int, j: int|
        0 <= i < offers.len() && 0 <= j < offers.len() && (#[trigger] offers[i]).is_published && (
        #[trigger] offers[j]).is_published && offers[i].addr == offers[j].addr
            ==> offers[i].entered == offers[j].entered && offers[i].configured
            == offers[j].configured
}

/// Whether the table holds what the offer says, or something later with the same parameters.
spec fn covers(s: Transports, o: Offer) -> bool {
    s.table.contains_key(o.addr) && !o.replaces(s.table[o.addr])
}

proof fn lemma_offers_covered(s: Transports, offers: Seq<Offer>, i: int)
    requires
        has_room(s, offers.len()),
        s.offers_valid(offers),
        consistent(offers),
        0 <= i < offers.len(),
        s.accepts(offers[i]),
    ensures
        covers(s.after_offers(offers), offers[i]),
    decreases offers.len(),
{
    let front = offers.drop_last();
    let last = offers.last();
    assert(last == offers[offers.len() - 1]);
    lemma_after_offers(s, front);
    assert(s.offers_valid(front)) by {
        assert forall|k: int| 0 <= k < front.len() && s.accepts(#[trigger] front[k]) implies front[k].valid() by {
            assert(front[k] == offers[k]);
        }
    }
    assert(consistent(front)) by {
        assert forall|k: int, m: int|
            0 <= k < front.len() && 0 <= m < front.len() && (#[trigger] front[k]).is_published && (
            #[trigger] front[m]).is_published && front[k].addr
                == front[m].addr implies front[k].entered == front[m].entered
            && front[k].configured == front[m].configured by {
            assert(front[k] == offers[k] && front[m] == offers[m]);
        }
    }
    if i < front.len() {
        assert(front[i] == offers[i]);
        lemma_offers_covered(s, front, i);
        if s.accepts(last) && last.addr == offers[i].addr {
            assert(offers[i].is_published && offers[offers.len() - 1].is_published);
        }
    }
}

/// What an accepted offer says arrives: afterwards the transport has the parameters of the offer
/// and is not older, unless the same message removes the address or holds other parameters for it.
pub proof fn law_offered_parameters_arrive(
    s: Transports,
    offers: Seq<Offer>,
    removed: Seq<Removal>,
    i: int,
)
    requires
        has_room(s, offers.len()),
        s.offers_valid(offers),
        consistent(offers),
        0 <= i < offers.len(),
        s.accepts(offers[i]),
        forall|k: int|
            0 <= k < sync_removals(offers, removed).len() && (#[trigger] sync_removals(
                offers,
                removed,
            )[k]).addr == offers[i].addr ==> sync_removals(offers, removed)[k].timestamp
                < offers[i].timestamp,
    ensures
        ({
            let table = s.synced(offers, removed).table;
            &&& table.contains_key(offers[i].addr)
            &&& table[offers[i].addr].entered == offers[i].entered
            &&& table[offers[i].addr].configured == offers[i].configured
            &&& table[offers[i].addr].add_timestamp >= offers[i].timestamp
        }),
{
    let removals = sync_removals(offers, removed);
    let saved = s.after_offers(offers);
    lemma_after_offers(s, offers);
    lemma_offers_covered(s, offers, i);
    lemma_survives(saved, removals, offers[i].addr);
    lemma_after_removals(saved, removals);
    lemma_elected(saved.after_removals(removals));
}

proof fn lemma_removals_done(s: Transports, removals: Seq<Removal>, i: int)
    requires
        s.wf(),
        0 <= i < removals.len(),
        s.after_removals(removals).table.dom().len() > 1,
    ensures
        !s.after_removals(removals).deletes(removals[i]),
        s.after_removals(removals).removed_since(removals[i].addr, removals[i].timestamp),
    decreases removals.len(),
{
    let front = removals.drop_last();
    let b = s.after_removals(front);
    lemma_after_removals(s, front);
    assert(removals.last() == removals[removals.len() - 1]);
    assert(b.table.dom().len() > 1);
    if i < front.len() {
        assert(front[i] == removals[i]);
        lemma_removals_done(s, front, i);
    }
}

proof fn lemma_nothing_to_save(s: Transports, offers: Seq<Offer>)
    requires
        s.primary is Some,
        forall|i: int| 0 <= i < offers.len() && s.accepts(#[trigger] offers[i]) ==> covers(
            s,
            offers[i],
        ),
    ensures
        s.after_offers(offers) == s,
        !s.offers_modify(offers),
    decreases offers.len(),
{
    if offers.len() > 0 {
        assert forall|i: int|
            0 <= i < offers.drop_last().len() && s.accepts(
                #[trigger] offers.drop_last()[i],
            ) implies covers(s, offers.drop_last()[i]) by {
            assert(offers.drop_last()[i] == offers[i]);
        }
        lemma_nothing_to_save(s, offers.drop_last());
        assert(offers.last() == offers[offers.len() - 1]);
        assert(s.accepts(offers.last()) ==> s.saved(offers.last()) =~= s);
    }
}

proof fn lemma_nothing_to_remove(s: Transports, removals: Seq<Removal>)
    requires
        s.table.dom().len() > 1 ==> forall|i: int|
            0 <= i < removals.len() ==> !s.deletes(#[trigger] removals[i]) && s.removed_since(
                removals[i].addr,
                removals[i].timestamp,
            ),
    ensures
        s.after_removals(removals) == s,
        s.removal_ids(removals) == Seq::<u32>::empty(),
    decreases removals.len(),
{
    if removals.len() > 0 {
        if s.table.dom().len() > 1 {
            assert forall|i: int| 0 <= i < removals.drop_last().len() implies !s.deletes(
                #[trigger] removals.drop_last()[i],
            ) && s.removed_since(
                removals.drop_last()[i].addr,
                removals.drop_last()[i].timestamp,
            ) by {
                assert(removals.drop_last()[i] == removals[i]);
            }
        }
        lemma_nothing_to_remove(s, removals.drop_last());
        assert(removals.last() == removals[removals.len() - 1]);
        assert(s.table.dom().len() > 1 ==> s.deleted(removals.last()) =~= s);
    }
}

/// Processing the same message again modifies nothing and leaves the state as it is,
/// unless the message holds different parameters for one address.
pub proof fn law_sync_is_idempotent(s: Transports, offers: Seq<Offer>, removed: Seq<Removal>)
    requires
        has_room(s, offers.len()),
        s.sync_succeeds(offers),
        consistent(offers),
    ensures
        s.synced(offers, removed).sync_succeeds(offers),
        s.synced(offers, removed).synced(offers, removed) == s.synced(offers, removed),
        !s.synced(offers, removed).sync_modifies(offers, removed),
{
    let removals = sync_removals(offers, removed);
    let saved = s.after_offers(offers);
    let left = saved.after_removals(removals);
    let t = left.elected();
    lemma_after_offers(s, offers);
    lemma_after_removals(saved, removals);
    lemma_elected(left);
    assert forall|i: int| 0 <= i < offers.len() && t.accepts(#[trigger] offers[i]) implies covers(
        t,
        offers[i],
    ) && s.accepts(offers[i]) by {
        let o = offers[i];
        if !s.accepts(o) {
            assert(saved.removed_since(o.addr, o.timestamp));
            assert(left.removed_since(o.addr, o.timestamp));
        }
        lemma_offers_covered(s, offers, i);
        if !left.table.contains_key(o.addr) {
            assert(left.removed_since(o.addr, saved.table[o.addr].add_timestamp));
        }
        assert(left.table[o.addr] == saved.table[o.addr]);
    }
    lemma_nothing_to_save(t, offers);
    if t.table.dom().len() > 1 {
        assert forall|i: int| 0 <= i < removals.len() implies !t.deletes(#[trigger] removals[i])
            && t.removed_since(removals[i].addr, removals[i].timestamp) by {
            lemma_removals_done(saved, removals, i);
        }
    }
    lemma_nothing_to_remove(t, removals);
}

// ---------------------------------------------------------------------------
// Each operation by what is in the tables before and after
// ---------------------------------------------------------------------------

/// A transport that was saved is in the table with the parameters of the offer. A known one keeps
/// its identifier, and its time if that is later and the parameters were the same; a new one gets
/// the next identifier. Nothing else changes, but that the first address becomes the sending
/// address.
pub proof fn law_saved_transport_is_in_the_table(s: Transports, o: Offer)
    requires
        has_room(s, 1),
    ensures
        ({
            let t = s.saved(o);
            let entry = t.table[o.addr];
            let known = s.table.contains_key(o.addr);
            let old = s.table[o.addr];
            &&& t.table.contains_key(o.addr)
            &&& entry.entered == o.entered
            &&& entry.configured == o.configured
            &&& entry.id == if known {
                old.id as int
            } else {
                s.next_id
            }
            &&& entry.add_timestamp == if known && old.entered == o.entered && old.configured
                == o.configured && old.add_timestamp > o.timestamp {
                old.add_timestamp
            } else {
                o.timestamp
            }
            &&& forall|a: Seq<char>|
                a != o.addr ==> #[trigger] t.table.contains_key(a) == s.table.contains_key(a)
            &&& forall|a: Seq<char>|
                a != o.addr && #[trigger] s.table.contains_key(a) ==> t.table[a] == s.table[a]
            &&& forall|a: Seq<char>| #[trigger]
                t.table.contains_key(a) ==> t.table[a].id < t.next_id
            &&& t.removed == s.removed
            &&& t.primary == if s.primary is Some {
                s.primary
            } else {
                Some(o.addr)
            }
        }),
{
    lemma_saved_wf(s, o);
}

/// Saving a transport reports a change exactly if the table or the sending address changed.
pub proof fn law_saving_reports_a_change(s: Transports, o: Offer)
    requires
        has_room(s, 1),
    ensures
        s.save_modifies(o) <==> s.saved(o).table != s.table || s.saved(o).primary != s.primary,
{
    let t = s.saved(o);
    assert(t.table.contains_key(o.addr));
    if s.table.contains_key(o.addr) && o.replaces(s.table[o.addr]) {
        assert(t.table[o.addr] != s.table[o.addr]);
    }
}

/// A transport is refused exactly if it names a folder to watch with an empty name.
pub proof fn law_only_an_empty_folder_is_refused(o: Offer)
    ensures
        o.valid() <==> o.folder != Some(Seq::<char>::empty()),
{
    if let Some(name) = o.folder {
        assert(name.len() == 0 ==> name =~= Seq::empty());
    }
}

/// A removal is carried out: no transport of the address is left that was added at the time of
/// the removal or before. A later one stays, and so does every other transport. The latest removal
/// of each address is remembered. A deletion is reported exactly if the transport is gone.
pub proof fn law_removal_is_carried_out(s: Transports, r: Removal)
    ensures
        ({
            let t = s.deleted(r);
            &&& t.table.contains_key(r.addr) ==> t.table[r.addr].add_timestamp > r.timestamp
            &&& s.table.contains_key(r.addr) && s.table[r.addr].add_timestamp > r.timestamp
                ==> t.table.contains_key(r.addr) && t.table[r.addr] == s.table[r.addr]
            &&& forall|a: Seq<char>|
                a != r.addr ==> #[trigger] t.table.contains_key(a) == s.table.contains_key(a)
            &&& forall|a: Seq<char>|
                a != r.addr && #[trigger] s.table.contains_key(a) ==> t.table[a] == s.table[a]
            &&& t.removed.contains_key(r.addr)
            &&& t.removed[r.addr] >= r.timestamp
            &&& t.removed[r.addr] == r.timestamp || s.removed.contains_key(r.addr)
                && t.removed[r.addr] == s.removed[r.addr]
            &&& s.removed.contains_key(r.addr) ==> t.removed[r.addr] >= s.removed[r.addr]
            &&& forall|a: Seq<char>|
                a != r.addr ==> #[trigger] t.removed.contains_key(a) == s.removed.contains_key(a)
            &&& forall|a: Seq<char>|
                a != r.addr && #[trigger] s.removed.contains_key(a) ==> t.removed[a] == s.removed[a]
            &&& t.primary == s.primary
            &&& t.next_id == s.next_id
            &&& s.deletes(r) <==> s.table.contains_key(r.addr) && !t.table.contains_key(r.addr)
        }),
{
}

/// Whether an offer is published and the address was not removed at its time or later.
pub open spec fn is_due(s: Transports, o: Offer) -> bool {
    o.is_published && (s.removed.contains_key(o.addr) ==> s.removed[o.addr] < o.timestamp)
}

/// Whether a message asks to remove an address at a time: it lists the removal, or holds the
/// transport unpublished.
pub open spec fn asks_to_remove(
    offers: Seq<Offer>,
    removed: Seq<Removal>,
    addr: Seq<char>,
    timestamp: i64,
) -> bool {
    ||| removed.contains(Removal { addr, timestamp })
    ||| exists|k: int|
        0 <= k < offers.len() && !(#[trigger] offers[k]).is_published && offers[k].addr == addr
            && offers[k].timestamp == timestamp
}

proof fn lemma_sync_removals(offers: Seq<Offer>, removed: Seq<Removal>, r: Removal)
    ensures
        sync_removals(offers, removed).contains(r) <==> asks_to_remove(
            offers,
            removed,
            r.addr,
            r.timestamp,
        ),
{
    let unpublished = |o: Offer| !o.is_published;
    let to_removal = |o: Offer| Removal { addr: o.addr, timestamp: o.timestamp };
    let kept = offers.filter(unpublished);
    let more = unpublished_removals(offers);
    assert(more == kept.map_values(to_removal));
    let all = sync_removals(offers, removed);
    if all.contains(r) {
        let i = all.index_of(r);
        if i < removed.len() {
            assert(removed[i] == r);
        } else {
            let o = kept[i - removed.len()];
            assert(to_removal(o) == r);
            assert(kept.contains(o));
            order::lemma_filter_members(offers, unpublished, o);
            let k = offers.index_of(o);
            assert(!offers[k].is_published);
        }
    }
    if removed.contains(r) {
        assert(all[removed.index_of(r)] == r);
    }
    if exists|k: int|
        0 <= k < offers.len() && !(#[trigger] offers[k]).is_published && offers[k].addr == r.addr
            && offers[k].timestamp == r.timestamp {
        let k = choose|k: int|
            0 <= k < offers.len() && !(#[trigger] offers[k]).is_published && offers[k].addr
                == r.addr && offers[k].timestamp == r.timestamp;
        order::lemma_filter_members(offers, unpublished, offers[k]);
        let i = kept.index_of(offers[k]);
        assert(more[i] == r);
        assert(all[removed.len() + i] == r);
    }
}

/// Whatever a message asks to remove is removed, unless a single transport is left: afterwards
/// there is no transport of the address that was added at that time or before, and the removal is
/// remembered.
pub proof fn law_sync_carries_out_removals(
    s: Transports,
    offers: Seq<Offer>,
    removed: Seq<Removal>,
    addr: Seq<char>,
    timestamp: i64,
)
    requires
        has_room(s, offers.len()),
        asks_to_remove(offers, removed, addr, timestamp),
        s.synced(offers, removed).table.dom().len() > 1,
    ensures
        ({
            let t = s.synced(offers, removed);
            &&& t.table.contains_key(addr) ==> t.table[addr].add_timestamp > timestamp
            &&& t.removed.contains_key(addr)
            &&& t.removed[addr] >= timestamp
        }),
{
    let removals = sync_removals(offers, removed);
    let saved = s.after_offers(offers);
    let left = saved.after_removals(removals);
    let r = Removal { addr, timestamp };
    lemma_sync_removals(offers, removed, r);
    let i = removals.index_of(r);
    assert(removals[i] == r);
    lemma_after_offers(s, offers);
    lemma_after_removals(saved, removals);
    lemma_elected(left);
    lemma_removals_done(saved, removals, i);
}

proof fn lemma_offers_keep(s: Transports, offers: Seq<Offer>, addr: Seq<char>)
    requires
        has_room(s, offers.len()),
        s.table.contains_key(addr),
        forall|i: int| 0 <= i < offers.len() && (#[trigger] offers[i]).addr == addr ==> !is_due(
            s,
            offers[i],
        ),
    ensures
        s.after_offers(offers).table.contains_key(addr),
        s.after_offers(offers).table[addr] == s.table[addr],
    decreases offers.len(),
{
    if offers.len() > 0 {
        let front = offers.drop_last();
        assert forall|i: int|
            0 <= i < front.len() && (#[trigger] front[i]).addr == addr implies !is_due(
            s,
            front[i],
        ) by {
            assert(front[i] == offers[i]);
        }
        lemma_offers_keep(s, front, addr);
        lemma_after_offers(s, front);
        assert(offers.last() == offers[offers.len() - 1]);
    }
}

/// A transport that a message offers nothing due for, and asks to remove at most at earlier times,
/// stays as it is.
pub proof fn law_other_transports_stay(
    s: Transports,
    offers: Seq<Offer>,
    removed: Seq<Removal>,
    addr: Seq<char>,
)
    requires
        has_room(s, offers.len()),
        s.table.contains_key(addr),
        forall|i: int| 0 <= i < offers.len() && (#[trigger] offers[i]).addr == addr ==> !is_due(
            s,
            offers[i],
        ),
        forall|t: i64| #[trigger]
            asks_to_remove(offers, removed, addr, t) ==> t < s.table[addr].add_timestamp,
    ensures
        s.synced(offers, removed).table.contains_key(addr),
        s.synced(offers, removed).table[addr] == s.table[addr],
{
    let removals = sync_removals(offers, removed);
    let saved = s.after_offers(offers);
    lemma_after_offers(s, offers);
    lemma_offers_keep(s, offers, addr);
    assert forall|i: int| 0 <= i < removals.len() && (#[trigger] removals[i]).addr
        == addr implies removals[i].timestamp < saved.table[addr].add_timestamp by {
        assert(removals.contains(removals[i]));
        lemma_sync_removals(offers, removed, removals[i]);
        assert(asks_to_remove(offers, removed, addr, removals[i].timestamp));
    }
    lemma_survives(saved, removals, addr);
    lemma_after_removals(saved, removals);
    lemma_elected(saved.after_removals(removals));
}

/// An offer that is due arrives with its parameters and is not older, unless the same message asks
/// to remove the address at its time or later, or offers it with other parameters.
pub proof fn law_due_offer_arrives(
    s: Transports,
    offers: Seq<Offer>,
    removed: Seq<Removal>,
    i: int,
)
    requires
        has_room(s, offers.len()),
        forall|k: int|
            0 <= k < offers.len() ==> (#[trigger] offers[k]).folder != Some(Seq::<char>::empty()),
        consistent(offers),
        0 <= i < offers.len(),
        is_due(s, offers[i]),
        forall|t: i64| #[trigger]
            asks_to_remove(offers, removed, offers[i].addr, t) ==> t < offers[i].timestamp,
    ensures
        ({
            let table = s.synced(offers, removed).table;
            &&& table.contains_key(offers[i].addr)
            &&& table[offers[i].addr].entered == offers[i].entered
            &&& table[offers[i].addr].configured == offers[i].configured
            &&& table[offers[i].addr].add_timestamp >= offers[i].timestamp
        }),
{
    let removals = sync_removals(offers, removed);
    assert forall|k: int| 0 <= k < offers.len() && s.accepts(
        #[trigger] offers[k],
    ) implies offers[k].valid() by {
        law_only_an_empty_folder_is_refused(offers[k]);
    }
    assert forall|k: int| 0 <= k < removals.len() && (#[trigger] removals[k]).addr
        == offers[i].addr implies removals[k].timestamp < offers[i].timestamp by {
        assert(removals.contains(removals[k]));
        lemma_sync_removals(offers, removed, removals[k]);
        assert(asks_to_remove(offers, removed, offers[i].addr, removals[k].timestamp));
    }
    law_offered_parameters_arrive(s, offers, removed, i);
}

/// A transport that is new after a message was offered by it, and the offer was due.
pub proof fn law_new_transport_was_offered(
    s: Transports,
    offers: Seq<Offer>,
    removed: Seq<Removal>,
    addr: Seq<char>,
)
    requires
        has_room(s, offers.len()),
        !s.table.contains_key(addr),
        s.synced(offers, removed).table.contains_key(addr),
    ensures
        exists|i: int|
            0 <= i < offers.len() && (#[trigger] offers[i]).addr == addr && is_due(s, offers[i]),
{
    let saved = s.after_offers(offers);
    lemma_after_offers(s, offers);
    lemma_after_removals(saved, sync_removals(offers, removed));
    lemma_elected(saved.after_removals(sync_removals(offers, removed)));
    if forall|i: int| 0 <= i < offers.len() && (#[trigger] offers[i]).addr == addr ==> !is_due(
        s,
        offers[i],
    ) {
        lemma_no_new_entry(s, offers, addr);
    }
}

proof fn lemma_few_stay(s: Transports, removals: Seq<Removal>)
    requires
        s.table.dom().len() <= 1,
    ensures
        s.after_removals(removals) == s,
    decreases removals.len(),
{
    if removals.len() > 0 {
        lemma_few_stay(s, removals.drop_last());
    }
}

/// A message that only asks for removals changes neither table as long as there is no more than
/// one transport.
pub proof fn law_single_transport_is_not_removed(s: Transports, removed: Seq<Removal>)
    requires
        s.wf(),
        s.table.dom().len() <= 1,
    ensures
        s.synced(Seq::empty(), removed).table == s.table,
        s.synced(Seq::empty(), removed).removed == s.removed,
{
    lemma_few_stay(s, sync_removals(Seq::empty(), removed));
    lemma_elected(s);
}

proof fn lemma_removed_later(s: Transports, removals: Seq<Removal>, addr: Seq<char>)
    ensures
        ({
            let t = s.after_removals(removals);
            t.removed.contains_key(addr) ==> (s.removed.contains_key(addr) && t.removed[addr]
                == s.removed[addr]) || removals.contains(
                Removal { addr, timestamp: t.removed[addr] },
            )
        }),
    decreases removals.len(),
{
    if removals.len() > 0 {
        let front = removals.drop_last();
        lemma_removed_later(s, front, addr);
        let t = s.after_removals(front);
        let r = Removal { addr, timestamp: t.removed[addr] };
        if front.contains(r) {
            assert(removals[front.index_of(r)] == r);
        }
        assert(removals[removals.len() - 1] == removals.last());
    }
}

/// A removal that is remembered after a message was remembered before, or the message asks for it.
pub proof fn law_only_removals_are_remembered(
    s: Transports,
    offers: Seq<Offer>,
    removed: Seq<Removal>,
    addr: Seq<char>,
)
    requires
        has_room(s, offers.len()),
        s.synced(offers, removed).removed.contains_key(addr),
    ensures
        ({
            let t = s.synced(offers, removed);
            (s.removed.contains_key(addr) && t.removed[addr] == s.removed[addr]) || asks_to_remove(
                offers,
                removed,
                addr,
                t.removed[addr],
            )
        }),
{
    let saved = s.after_offers(offers);
    let removals = sync_removals(offers, removed);
    let t = s.synced(offers, removed);
    lemma_after_offers(s, offers);
    lemma_after_removals(saved, removals);
    lemma_elected(saved.after_removals(removals));
    lemma_removed_later(saved, removals, addr);
    lemma_sync_removals(offers, removed, Removal { addr, timestamp: t.removed[addr] });
}

proof fn lemma_removal_ids(s: Transports, removals: Seq<Removal>)
    requires
        s.wf(),
    ensures
        s.removal_ids(removals).no_duplicates(),
        forall|a: Seq<char>| #[trigger]
            s.table.contains_key(a) ==> (s.removal_ids(removals).contains(s.table[a].id)
                <==> !s.after_removals(removals).table.contains_key(a)),
    decreases removals.len(),
{
    if removals.len() > 0 {
        let front = removals.drop_last();
        let r = removals.last();
        let b = s.after_removals(front);
        let t = s.after_removals(removals);
        let before = s.removal_ids(front);
        let ids = s.removal_ids(removals);
        lemma_removal_ids(s, front);
        lemma_after_removals(s, front);
        assert forall|a: Seq<char>| #[trigger] s.table.contains_key(a) implies (ids.contains(
            s.table[a].id,
        ) <==> !t.table.contains_key(a)) by {
            assert(before.contains(s.table[a].id) <==> !b.table.contains_key(a));
            if b.table.dom().len() > 1 && b.deletes(r) {
                assert(s.table.contains_key(r.addr));
                assert(ids[before.len() as int] == s.table[r.addr].id);
                if before.contains(s.table[a].id) {
                    assert(ids[before.index_of(s.table[a].id)] == s.table[a].id);
                }
                if ids.contains(s.table[a].id) && a != r.addr {
                    let k = ids.index_of(s.table[a].id);
                    assert(s.table[a].id != s.table[r.addr].id);
                    assert(before[k] == s.table[a].id);
                }
            }
        }
        if b.table.dom().len() > 1 && b.deletes(r) {
            assert(s.table.contains_key(r.addr));
            assert(!before.contains(s.table[r.addr].id));
        }
    }
}

proof fn lemma_offers_keep_ids(s: Transports, offers: Seq<Offer>, addr: Seq<char>)
    requires
        has_room(s, offers.len()),
        s.table.contains_key(addr),
    ensures
        s.after_offers(offers).table.contains_key(addr),
        s.after_offers(offers).table[addr].id == s.table[addr].id,
    decreases offers.len(),
{
    if offers.len() > 0 {
        lemma_offers_keep_ids(s, offers.drop_last(), addr);
    }
}

/// A message reports the identifiers of exactly those transports that are gone after it, each
/// once.
pub proof fn law_deleted_transports_are_reported(
    s: Transports,
    offers: Seq<Offer>,
    removed: Seq<Removal>,
    addr: Seq<char>,
)
    requires
        has_room(s, offers.len()),
        s.table.contains_key(addr),
    ensures
        ({
            let ids = s.after_offers(offers).removal_ids(sync_removals(offers, removed));
            &&& ids.no_duplicates()
            &&& ids.contains(s.table[addr].id) <==> !s.synced(offers, removed).table.contains_key(
                addr,
            )
        }),
{
    let saved = s.after_offers(offers);
    let removals = sync_removals(offers, removed);
    lemma_after_offers(s, offers);
    lemma_offers_keep_ids(s, offers, addr);
    lemma_removal_ids(saved, removals);
    lemma_after_removals(saved, removals);
    lemma_elected(saved.after_removals(removals));
}

/// A message makes a change known whenever a transport is gone, another one is there, or one has
/// other parameters or another time than before, and whenever the sending address is another one.
pub proof fn law_changes_are_reported(
    s: Transports,
    offers: Seq<Offer>,
    removed: Seq<Removal>,
)
    requires
        s.synced(offers, removed).table != s.table || s.synced(offers, removed).primary
            != s.primary,
    ensures
        s.sync_modifies(offers, removed),
{
    if !s.sync_modifies(offers, removed) {
        law_unmodified_means_unchanged(s, offers, removed);
    }
}

/// A message in which nothing is due and nothing is asked to be removed reports no change.
pub proof fn law_idle_message_changes_nothing(s: Transports, offers: Seq<Offer>)
    requires
        has_room(s, offers.len()),
        s.primary matches Some(p) && s.table.contains_key(p),
        forall|i: int|
            0 <= i < offers.len() ==> (#[trigger] offers[i]).is_published && !is_due(s, offers[i]),
    ensures
        s.synced(offers, Seq::empty()) == s,
        !s.sync_modifies(offers, Seq::empty()),
{
    let removals = sync_removals(offers, Seq::empty());
    lemma_nothing_to_save(s, offers);
    if removals.len() > 0 {
        let r = removals[0];
        assert(removals.contains(r));
        lemma_sync_removals(offers, Seq::empty(), r);
    }
    assert(removals =~= Seq::empty());
}

/// When the sending address has no transport any more, the one that was added last takes its
/// place; of those that were added in the same second, the one with the largest identifier.
pub proof fn law_elected_address_was_added_last(
    s: Transports,
    offers: Seq<Offer>,
    removed: Seq<Removal>,
    addr: Seq<char>,
)
    requires
        has_room(s, offers.len()),
        s.primary is Some,
        s.synced(offers, removed).primary != s.primary,
        s.synced(offers, removed).table.contains_key(addr),
    ensures
        ({
            let table = s.synced(offers, removed).table;
            let p = s.synced(offers, removed).primary->0;
            &&& s.synced(offers, removed).primary is Some
            &&& table.contains_key(p)
            &&& table[addr].add_timestamp <= table[p].add_timestamp
            &&& addr != p && table[addr].add_timestamp == table[p].add_timestamp ==> table[addr].id
                < table[p].id
        }),
{
    let saved = s.after_offers(offers);
    lemma_after_offers(s, offers);
    lemma_after_removals(saved, sync_removals(offers, removed));
    lemma_elected(saved.after_removals(sync_removals(offers, removed)));
    law_sending_address_moves_to_the_newest(s, offers, removed);
}

/// An election changes nothing but the sending address, and that only if it has no transport
/// although there are some; then the transport that was added last is elected.
pub proof fn law_election(s: Transports, addr: Seq<char>)
    requires
        s.wf(),
        s.primary is Some,
        s.table.contains_key(addr),
    ensures
        ({
            let t = s.elected();
            let p = t.primary->0;
            &&& t.table == s.table
            &&& t.removed == s.removed
            &&& t.primary is Some
            &&& s.table.contains_key(p)
            &&& s.table.contains_key(s.primary->0) ==> t.primary == s.primary
            &&& !s.table.contains_key(s.primary->0) ==> {
                &&& s.table[addr].add_timestamp <= s.table[p].add_timestamp
                &&& addr != p && s.table[addr].add_timestamp == s.table[p].add_timestamp
                    ==> s.table[addr].id < s.table[p].id
            }
            &&& s.needs_election() <==> !s.table.contains_key(s.primary->0)
        }),
{
    assert(s.table.dom().len() > 0) by {
        if s.table.dom().len() == 0 {
            s.table.dom().lemma_len0_is_empty();
            assert(s.table.dom().contains(addr));
        }
    }
    lemma_elected(s);
}

proof fn lemma_offers_primary(s: Transports, offers: Seq<Offer>)
    requires
        s.offers_valid(offers),
    ensures
        s.after_offers(offers).primary is Some <==> s.primary is Some || exists|i: int|
            0 <= i < offers.len() && is_due(s, #[trigger] offers[i]),
        s.after_offers(offers).removed == s.removed,
    decreases offers.len(),
{
    if offers.len() > 0 {
        let front = offers.drop_last();
        assert forall|i: int| 0 <= i < front.len() && s.accepts(
            #[trigger] front[i],
        ) implies front[i].valid() by {
            assert(front[i] == offers[i]);
        }
        lemma_offers_primary(s, front);
        assert(offers[offers.len() - 1] == offers.last());
        if exists|i: int| 0 <= i < front.len() && is_due(s, #[trigger] front[i]) {
            let i = choose|i: int| 0 <= i < front.len() && is_due(s, #[trigger] front[i]);
            assert(offers[i] == front[i]);
        }
        if exists|i: int| 0 <= i < offers.len() && is_due(s, #[trigger] offers[i]) {
            let i = choose|i: int| 0 <= i < offers.len() && is_due(s, #[trigger] offers[i]);
            if i < front.len() {
                assert(front[i] == offers[i]);
            }
        }
    }
}

/// A message is processed to its end exactly if no due offer names an empty folder, and there is a
/// sending address or a due offer that gives one.
pub proof fn law_sync_succeeds(s: Transports, offers: Seq<Offer>)
    ensures
        s.sync_succeeds(offers) <==> {
            &&& forall|i: int|
                0 <= i < offers.len() && is_due(s, #[trigger] offers[i]) ==> offers[i].folder
                    != Some(Seq::<char>::empty())
            &&& s.primary is Some || exists|i: int|
                0 <= i < offers.len() && is_due(s, #[trigger] offers[i])
        },
{
    assert forall|i: int| 0 <= i < offers.len() implies (s.accepts(#[trigger] offers[i]) <==> is_due(
        s,
        offers[i],
    )) && (offers[i].valid() <==> offers[i].folder != Some(Seq::<char>::empty())) by {
        law_only_an_empty_folder_is_refused(offers[i]);
    }
    if s.offers_valid(offers) {
        lemma_offers_primary(s, offers);
    }
}

/// The addresses of the transports are listed by when they were added, the latest first, and of
/// those that were added in the same second the one with the larger identifier first.
pub proof fn law_addresses_are_listed_by_time(s: Transports, addrs: Seq<Seq<char>>)
    requires
        newest_first(s.table, addrs),
    ensures
        addrs.no_duplicates(),
        forall|a: Seq<char>| #[trigger] addrs.contains(a) <==> s.table.contains_key(a),
        forall|i: int, j: int|
            0 <= i < j < addrs.len() ==> s.table[#[trigger] addrs[i]].add_timestamp
                >= s.table[#[trigger] addrs[j]].add_timestamp,
        forall|i: int, j: int|
            0 <= i < j < addrs.len() && s.table[#[trigger] addrs[i]].add_timestamp
                == s.table[#[trigger] addrs[j]].add_timestamp ==> s.table[addrs[i]].id
                > s.table[addrs[j]].id,
{
    assert forall|a: Seq<char>| #[trigger] addrs.contains(a) <==> s.table.contains_key(a) by {
        assert(addrs.to_set().contains(a) == s.table.dom().contains(a));
    }
}

/// The state shows every row of the tables with its columns, and nothing else.
pub proof fn law_state_shows_the_rows(store: TransportStore, i: int, addr: Seq<char>)
    requires
        store.wf(),
    ensures
        0 <= i < store.rows@.len() ==> {
            let row = store.rows@[i];
            let entry = store@.table[row.addr@];
            &&& store@.table.contains_key(row.addr@)
            &&& entry.id == row.id
            &&& entry.entered == row.entered_param@
            &&& entry.configured == row.configured_param@
            &&& entry.add_timestamp == row.add_timestamp
        },
        store@.table.contains_key(addr) <==> exists|k: int|
            0 <= k < store.rows@.len() && (#[trigger] store.rows@[k]).addr@ == addr,
        0 <= i < store.removed@.len() ==> {
            let row = store.removed@[i];
            store@.removed.contains_key(row.addr@) && store@.removed[row.addr@] == row.timestamp
        },
        store@.removed.contains_key(addr) <==> exists|k: int|
            0 <= k < store.removed@.len() && (#[trigger] store.removed@[k]).addr@ == addr,
        store@.next_id == store.next_id,
        store@.primary is Some == store.configured_addr is Some,
        store@.primary is Some ==> store@.primary->0 == store.configured_addr->0@,
{
    let rows = store.rows@;
    let removed = store.removed@;
    if 0 <= i < rows.len() {
        transport_store::lemma_table_row(rows, i);
    }
    if store@.table.contains_key(addr) {
        let k = transport_store::lemma_table_row_of(rows, addr);
        assert(rows[k].addr@ == addr);
    }
    if exists|k: int| 0 <= k < rows.len() && (#[trigger] rows[k]).addr@ == addr {
        let k = choose|k: int| 0 <= k < rows.len() && (#[trigger] rows[k]).addr@ == addr;
        transport_store::lemma_table_row(rows, k);
    }
    if 0 <= i < removed.len() {
        transport_store::lemma_removed_row(removed, i);
    }
    if store@.removed.contains_key(addr) {
        let k = transport_store::removed_addrs(removed).index_of(addr);
        assert(transport_store::removed_addrs(removed)[k] == addr);
        assert(removed[k].addr@ == addr);
    }
    if exists|k: int| 0 <= k < removed.len() && (#[trigger] removed[k]).addr@ == addr {
        let k = choose|k: int| 0 <= k < removed.len() && (#[trigger] removed[k]).addr@ == addr;
        transport_store::lemma_removed_row(removed, k);
    }
}

/// After a transport was saved, the table has a row with the columns of what was saved.
pub proof fn law_saved_row_has_the_columns(
    before: TransportStore,
    data: TransportData,
    after: TransportStore,
)
    requires
        before.wf(),
        before.next_id < u32::MAX,
        after.wf(),
        after@ == before@.saved(data.offer()),
    ensures
        exists|k: int|
            0 <= k < after.rows@.len() && (#[trigger] after.rows@[k]).addr@ == data.addr@
                && after.rows@[k].entered_param@ == data.entered_param@
                && after.rows@[k].configured_param@ == data.configured_param@
                && after.rows@[k].add_timestamp >= data.timestamp,
        forall|k: int|
            0 <= k < before.rows@.len() && (#[trigger] before.rows@[k]).addr@ != data.addr@
                ==> exists|m: int|
                0 <= m < after.rows@.len() && (#[trigger] after.rows@[m]).addr@
                    == before.rows@[k].addr@ && after.rows@[m].id == before.rows@[k].id
                    && after.rows@[m].configured_param@ == before.rows@[k].configured_param@
                    && after.rows@[m].entered_param@ == before.rows@[k].entered_param@
                    && after.rows@[m].add_timestamp == before.rows@[k].add_timestamp,
        before.configured_addr is None ==> after.configured_addr is Some
            && after.configured_addr->0@ == data.addr@,
{
    crate::transport_load::law_store_is_a_valid_state(before);
    law_saved_transport_is_in_the_table(before@, data.offer());
    law_state_shows_the_rows(after, 0, data.addr@);
    let k = transport_store::lemma_table_row_of(after.rows@, data.addr@);
    assert(after.rows@[k].addr@ == data.addr@);
    assert forall|k: int|
        0 <= k < before.rows@.len() && (#[trigger] before.rows@[k]).addr@
            != data.addr@ implies exists|m: int|
        0 <= m < after.rows@.len() && (#[trigger] after.rows@[m]).addr@ == before.rows@[k].addr@
            && after.rows@[m].id == before.rows@[k].id && after.rows@[m].configured_param@
            == before.rows@[k].configured_param@ && after.rows@[m].entered_param@
            == before.rows@[k].entered_param@ && after.rows@[m].add_timestamp
            == before.rows@[k].add_timestamp by {
        law_state_shows_the_rows(before, k, before.rows@[k].addr@);
        let m = transport_store::lemma_table_row_of(after.rows@, before.rows@[k].addr@);
        assert(after.rows@[m].addr@ == before.rows@[k].addr@);
    }
}

/// After a removal, the table has no row of the address that was added at its time or before, and
/// every row of another address, or a later one, is still there.
pub proof fn law_removed_row_is_gone(
    before: TransportStore,
    addr: Seq<char>,
    timestamp: i64,
    after: TransportStore,
    k: int,
)
    requires
        before.wf(),
        after.wf(),
        after@ == before@.deleted(Removal { addr, timestamp }),
    ensures
        0 <= k < after.rows@.len() && after.rows@[k].addr@ == addr ==> after.rows@[k].add_timestamp
            > timestamp,
        0 <= k < before.rows@.len() && (before.rows@[k].addr@ != addr
            || before.rows@[k].add_timestamp > timestamp) ==> exists|m: int|
            0 <= m < after.rows@.len() && (#[trigger] after.rows@[m]).addr@
                == before.rows@[k].addr@ && after.rows@[m].id == before.rows@[k].id
                && after.rows@[m].configured_param@ == before.rows@[k].configured_param@,
{
    law_removal_is_carried_out(before@, Removal { addr, timestamp });
    if 0 <= k < after.rows@.len() {
        law_state_shows_the_rows(after, k, addr);
    }
    if 0 <= k < before.rows@.len() && (before.rows@[k].addr@ != addr
        || before.rows@[k].add_timestamp > timestamp) {
        law_state_shows_the_rows(before, k, before.rows@[k].addr@);
        let m = transport_store::lemma_table_row_of(after.rows@, before.rows@[k].addr@);
        assert(after.rows@[m].addr@ == before.rows@[k].addr@);
    }
}

/// The fields of a message are taken as they are.
pub proof fn law_message_is_taken_as_it_is(
    data: Seq<TransportData>,
    removed: Seq<transport_store::RemovedTransportData>,
    i: int,
)
    ensures
        transport_store::offers_of(data).len() == data.len(),
        0 <= i < data.len() ==> {
            let o = transport_store::offers_of(data)[i];
            &&& o.addr == data[i].addr@
            &&& o.entered == data[i].entered_param@
            &&& o.configured == data[i].configured_param@
            &&& o.timestamp == data[i].timestamp
            &&& o.is_published == data[i].is_published
            &&& o.folder is Some == data[i].imap_folder is Some
            &&& o.folder is Some ==> o.folder->0 == data[i].imap_folder->0@
        },
        transport_store::listed_removals(removed).len() == removed.len(),
        0 <= i < removed.len() ==> {
            let r = transport_store::listed_removals(removed)[i];
            r.addr == removed[i].addr@ && r.timestamp == removed[i].timestamp
        },
{
}

proof fn lemma_last_offer(s: Transports, offers: Seq<Offer>, i: int)
    requires
        has_room(s, offers.len()),
        s.offers_valid(offers),
        0 <= i < offers.len(),
        s.accepts(offers[i]),
        forall|k: int|
            i < k < offers.len() && (#[trigger] offers[k]).addr == offers[i].addr ==> !s.accepts(
                offers[k],
            ),
    ensures
        ({
            let table = s.after_offers(offers).table;
            &&& table.contains_key(offers[i].addr)
            &&& table[offers[i].addr].entered == offers[i].entered
            &&& table[offers[i].addr].configured == offers[i].configured
            &&& table[offers[i].addr].add_timestamp >= offers[i].timestamp
        }),
    decreases offers.len(),
{
    let front = offers.drop_last();
    lemma_after_offers(s, front);
    assert forall|k: int| 0 <= k < front.len() && s.accepts(
        #[trigger] front[k],
    ) implies front[k].valid() by {
        assert(front[k] == offers[k]);
    }
    assert(offers.last() == offers[offers.len() - 1]);
    if i < front.len() {
        assert forall|k: int|
            i < k < front.len() && (#[trigger] front[k]).addr == front[i].addr implies !s.accepts(
            front[k],
        ) by {
            assert(front[k] == offers[k]);
        }
        lemma_last_offer(s, front, i);
    }
}

/// Of several offers that are due for one address the last one counts: the transport gets its
/// parameters and is not older, unless the same message asks to remove the address at its time or
/// later.
pub proof fn law_last_due_offer_counts(
    s: Transports,
    offers: Seq<Offer>,
    removed: Seq<Removal>,
    i: int,
)
    requires
        has_room(s, offers.len()),
        forall|k: int|
            0 <= k < offers.len() ==> (#[trigger] offers[k]).folder != Some(Seq::<char>::empty()),
        0 <= i < offers.len(),
        is_due(s, offers[i]),
        forall|k: int|
            i < k < offers.len() && (#[trigger] offers[k]).addr == offers[i].addr ==> !is_due(
                s,
                offers[k],
            ),
        forall|t: i64| #[trigger]
            asks_to_remove(offers, removed, offers[i].addr, t) ==> t < offers[i].timestamp,
    ensures
        ({
            let table = s.synced(offers, removed).table;
            &&& table.contains_key(offers[i].addr)
            &&& table[offers[i].addr].entered == offers[i].entered
            &&& table[offers[i].addr].configured == offers[i].configured
            &&& table[offers[i].addr].add_timestamp >= offers[i].timestamp
        }),
{
    let removals = sync_removals(offers, removed);
    let saved = s.after_offers(offers);
    assert forall|k: int| 0 <= k < offers.len() && s.accepts(
        #[trigger] offers[k],
    ) implies offers[k].valid() by {
        law_only_an_empty_folder_is_refused(offers[k]);
    }
    assert forall|k: int| 0 <= k < removals.len() && (#[trigger] removals[k]).addr
        == offers[i].addr implies removals[k].timestamp < offers[i].timestamp by {
        assert(removals.contains(removals[k]));
        lemma_sync_removals(offers, removed, removals[k]);
        assert(asks_to_remove(offers, removed, offers[i].addr, removals[k].timestamp));
    }
    lemma_after_offers(s, offers);
    lemma_last_offer(s, offers, i);
    lemma_survives(saved, removals, offers[i].addr);
    lemma_after_removals(saved, removals);
    lemma_elected(saved.after_removals(removals));
}

proof fn lemma_keeps_all(s: Transports, removals: Seq<Removal>)
    requires
        forall|i: int| 0 <= i < removals.len() ==> !s.deletes(#[trigger] removals[i]),
    ensures
        s.after_removals(removals).table == s.table,
        s.after_removals(removals).primary == s.primary,
        s.removal_ids(removals) == Seq::<u32>::empty(),
    decreases removals.len(),
{
    if removals.len() > 0 {
        let front = removals.drop_last();
        assert forall|i: int| 0 <= i < front.len() implies !s.deletes(#[trigger] front[i]) by {
            assert(front[i] == removals[i]);
        }
        lemma_keeps_all(s, front);
        assert(!s.deletes(removals[removals.len() - 1]));
        assert(removals.last() == removals[removals.len() - 1]);
    }
}

/// A message reports no change if the table already has what is due in it, and no transport that
/// it asks to remove: the transports and the sending address are what they were.
pub proof fn law_known_message_changes_nothing(
    s: Transports,
    offers: Seq<Offer>,
    removed: Seq<Removal>,
)
    requires
        s.primary matches Some(p) && s.table.contains_key(p),
        forall|i: int|
            0 <= i < offers.len() && is_due(s, #[trigger] offers[i]) ==> s.table.contains_key(
                offers[i].addr,
            ) && s.table[offers[i].addr].entered == offers[i].entered
                && s.table[offers[i].addr].configured == offers[i].configured
                && s.table[offers[i].addr].add_timestamp >= offers[i].timestamp,
        forall|addr: Seq<char>, t: i64| #[trigger]
            asks_to_remove(offers, removed, addr, t) && s.table.contains_key(addr)
                ==> s.table[addr].add_timestamp > t,
    ensures
        !s.sync_modifies(offers, removed),
        s.synced(offers, removed).table == s.table,
        s.synced(offers, removed).primary == s.primary,
        s.after_offers(offers).removal_ids(sync_removals(offers, removed)).len() == 0,
{
    let removals = sync_removals(offers, removed);
    lemma_nothing_to_save(s, offers);
    assert forall|i: int| 0 <= i < removals.len() implies !s.deletes(#[trigger] removals[i]) by {
        assert(removals.contains(removals[i]));
        lemma_sync_removals(offers, removed, removals[i]);
        assert(asks_to_remove(offers, removed, removals[i].addr, removals[i].timestamp));
    }
    lemma_keeps_all(s, removals);
}

/// A message that cannot be processed to its end removes nothing, and leaves the sending address.
pub proof fn law_failed_message_removes_nothing(s: Transports, offers: Seq<Offer>, addr: Seq<char>)
    requires
        has_room(s, offers.len()),
    ensures
        s.after_offers(offers).removed == s.removed,
        s.table.contains_key(addr) ==> s.after_offers(offers).table.contains_key(addr),
        s.primary is Some ==> s.after_offers(offers).primary == s.primary,
{
    lemma_after_offers(s, offers);
    if s.table.contains_key(addr) {
        assert(s.table.dom().contains(addr));
        assert(s.after_offers(offers).table.dom().contains(addr));
    }
}

} // verus!
