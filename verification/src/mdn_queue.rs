//! The queue of read receipts (MDNs), as it is kept in the `smtp_mdns` table.

use vstd::prelude::*;

use crate::order;
use crate::text;

verus! {

/// A read receipt that was tried more often than this is dropped. One that was tried exactly as
/// often is tried once more.
pub const MAX_MDN_RETRIES: i64 = 6;

/// A row of the table.
pub struct MdnRow {
    /// Identifier of the row.
    pub id: i64,
    /// Message that was read.
    pub rfc724_mid: String,
    /// Contact that wrote the message and gets the receipt.
    pub from_id: u32,
    /// How often it was tried to send the receipt.
    pub retries: i64,
}

/// The read receipts that wait to be sent.
pub struct MdnQueue {
    pub rows: Vec<MdnRow>,
}

/// A read receipt.
pub struct Receipt {
    pub id: i64,
    pub mid: Seq<char>,
    pub from_id: u32,
    pub retries: i64,
}

impl View for MdnRow {
    type V = Receipt;

    open spec fn view(&self) -> Receipt {
        Receipt {
            id: self.id,
            mid: self.rfc724_mid@,
            from_id: self.from_id,
            retries: self.retries,
        }
    }
}

impl View for MdnQueue {
    type V = Seq<Receipt>;

    open spec fn view(&self) -> Seq<Receipt> {
        self.rows@.map_values(|r: MdnRow| r@)
    }
}

/// Whether a receipt has not been tried too often.
pub open spec fn is_triable() -> spec_fn(Receipt) -> bool {
    |r: Receipt| r.retries <= MAX_MDN_RETRIES
}

/// Whether a receipt is not for the given message.
pub open spec fn is_not_for(mid: Seq<char>) -> spec_fn(Receipt) -> bool {
    |r: Receipt| r.mid != mid
}

/// Whether a receipt is for the given contact and another message than the given one.
pub open spec fn is_additional(from_id: u32, mid: Seq<char>) -> spec_fn(Receipt) -> bool {
    |r: Receipt| r.from_id == from_id && r.mid != mid
}

/// Whether the receipt at `i` is the one to send: the first of those that were tried least.
pub open spec fn is_next(queue: Seq<Receipt>, i: int) -> bool {
    &&& 0 <= i < queue.len()
    &&& forall|j: int| 0 <= j < i ==> queue[i].retries < (#[trigger] queue[j]).retries
    &&& forall|j: int| i <= j < queue.len() ==> queue[i].retries <= (#[trigger] queue[j]).retries
}

/// The queue after a try for the given message was counted.
pub open spec fn counted(queue: Seq<Receipt>, mid: Seq<char>) -> Seq<Receipt> {
    queue.map_values(
        |r: Receipt|
            if r.mid == mid {
                Receipt { retries: (r.retries + 1) as i64, ..r }
            } else {
                r
            },
    )
}

/// The queue without the receipts for some messages.
pub open spec fn without(queue: Seq<Receipt>, mids: Seq<Seq<char>>) -> Seq<Receipt>
    decreases mids.len(),
{
    if mids.len() == 0 {
        queue
    } else {
        without(queue, mids.drop_last()).filter(is_not_for(mids.last()))
    }
}

/// The messages of the other receipts for a contact, which can be sent along.
pub open spec fn additional_mids(queue: Seq<Receipt>, from_id: u32, mid: Seq<char>) -> Seq<
    Seq<char>,
> {
    queue.filter(is_additional(from_id, mid)).map_values(|r: Receipt| r.mid)
}

impl MdnQueue {
    /// Drops the receipts that were tried too often.
    pub fn purge(&mut self)
        ensures
            final(self)@ == old(self)@.filter(is_triable()),
    {
        let mut kept: Vec<MdnRow> = Vec::new();
        let ghost all = self@;
        let ghost f = is_triable();
        assert(all.take(0).filter(f) =~= Seq::<Receipt>::empty());
        for i in 0..self.rows.len()
            invariant
                all == self@,
                f == is_triable(),
                kept@.map_values(|r: MdnRow| r@) == all.take(i as int).filter(f),
        {
            proof {
                assert(all.take(i + 1) =~= all.take(i as int).push(all[i as int]));
                all.take(i as int).lemma_filter_push(all[i as int], f);
            }
            if self.rows[i].retries <= MAX_MDN_RETRIES {
                let ghost before = kept@;
                kept.push(self.rows[i].clone());
                assert(kept@.map_values(|r: MdnRow| r@) =~= before.map_values(
                    |r: MdnRow| r@,
                ).push(all[i as int]));
            }
        }
        assert(all.take(all.len() as int) =~= all);
        self.rows = kept;
    }

    /// The position of the receipt to send.
    pub fn next(&self) -> (r: Option<usize>)
        ensures
            match r {
                Some(i) => is_next(self@, i as int),
                None => self@.len() == 0,
            },
    {
        if self.rows.len() == 0 {
            return None;
        }
        let mut best: usize = 0;
        for i in 1..self.rows.len()
            invariant
                best < i <= self.rows@.len(),
                forall|j: int|
                    0 <= j < best ==> self@[best as int].retries < (#[trigger] self@[j]).retries,
                forall|j: int|
                    best <= j < i ==> self@[best as int].retries <= (#[trigger] self@[j]).retries,
        {
            assert(self@[i as int] == self.rows@[i as int]@);
            assert(self@[best as int] == self.rows@[best as int]@);
            if self.rows[i].retries < self.rows[best].retries {
                best = i;
            }
        }
        Some(best)
    }

    /// Counts a try for a message.
    pub fn count_retry(&mut self, mid: &str)
        requires
            forall|i: int| 0 <= i < old(self)@.len() ==> (#[trigger] old(self)@[i]).retries < i64::MAX,
        ensures
            final(self)@ == counted(old(self)@, mid@),
    {
        let ghost before = self@;
        let count: usize = self.rows.len();
        for i in 0..count
            invariant
                before.len() == count,
                self.rows@.len() == count,
                forall|j: int| 0 <= j < before.len() ==> (#[trigger] before[j]).retries < i64::MAX,
                forall|j: int| 0 <= j < i ==> (#[trigger] self.rows@[j])@ == counted(before, mid@)[j],
                forall|j: int| i <= j < before.len() ==> (#[trigger] self.rows@[j])@ == before[j],
        {
            if text::same_text(self.rows[i].rfc724_mid.as_str(), mid) {
                let row = &self.rows[i];
                assert(before[i as int].retries < i64::MAX);
                let updated = MdnRow {
                    id: row.id,
                    rfc724_mid: row.rfc724_mid.clone(),
                    from_id: row.from_id,
                    retries: row.retries + 1,
                };
                self.rows[i] = updated;
            }
        }
        assert(self@ =~= counted(before, mid@));
    }

    /// The messages of the other receipts for a contact.
    pub fn additional(&self, from_id: u32, mid: &str) -> (r: Vec<String>)
        ensures
            text::texts(r@) == additional_mids(self@, from_id, mid@),
    {
        let mut mids: Vec<String> = Vec::new();
        let ghost all = self@;
        let ghost f = is_additional(from_id, mid@);
        let ghost g = |r: Receipt| r.mid;
        assert(all.take(0).filter(f) =~= Seq::<Receipt>::empty());
        assert(text::texts(mids@) =~= all.take(0).filter(f).map_values(g));
        for i in 0..self.rows.len()
            invariant
                all == self@,
                f == is_additional(from_id, mid@),
                g == (|r: Receipt| r.mid),
                text::texts(mids@) == all.take(i as int).filter(f).map_values(g),
        {
            proof {
                assert(all.take(i + 1) =~= all.take(i as int).push(all[i as int]));
                all.take(i as int).lemma_filter_push(all[i as int], f);
            }
            if self.rows[i].from_id == from_id && !text::same_text(
                self.rows[i].rfc724_mid.as_str(),
                mid,
            ) {
                let ghost before = mids@;
                mids.push(self.rows[i].rfc724_mid.clone());
                proof {
                    let kept = all.take(i as int).filter(f);
                    assert(kept.push(all[i as int]).map_values(g) =~= kept.map_values(g).push(
                        g(all[i as int]),
                    ));
                    assert(text::texts(mids@) =~= text::texts(before).push(g(all[i as int])));
                }
            }
        }
        assert(all.take(all.len() as int) =~= all);
        mids
    }

    /// Removes the receipts for a message.
    pub fn remove(&mut self, mid: &str)
        ensures
            final(self)@ == old(self)@.filter(is_not_for(mid@)),
    {
        let mut kept: Vec<MdnRow> = Vec::new();
        let ghost all = self@;
        let ghost f = is_not_for(mid@);
        assert(all.take(0).filter(f) =~= Seq::<Receipt>::empty());
        for i in 0..self.rows.len()
            invariant
                all == self@,
                f == is_not_for(mid@),
                kept@.map_values(|r: MdnRow| r@) == all.take(i as int).filter(f),
        {
            proof {
                assert(all.take(i + 1) =~= all.take(i as int).push(all[i as int]));
                all.take(i as int).lemma_filter_push(all[i as int], f);
            }
            if !text::same_text(self.rows[i].rfc724_mid.as_str(), mid) {
                let ghost before = kept@;
                kept.push(self.rows[i].clone());
                assert(kept@.map_values(|r: MdnRow| r@) =~= before.map_values(
                    |r: MdnRow| r@,
                ).push(all[i as int]));
            }
        }
        assert(all.take(all.len() as int) =~= all);
        self.rows = kept;
    }

    /// Removes the receipts for some messages.
    pub fn remove_all(&mut self, mids: &Vec<String>)
        ensures
            final(self)@ == without(old(self)@, text::texts(mids@)),
    {
        let ghost list = text::texts(mids@);
        let ghost before = self@;
        assert(list.take(0) =~= Seq::<Seq<char>>::empty());
        for i in 0..mids.len()
            invariant
                list == text::texts(mids@),
                self@ == without(before, list.take(i as int)),
        {
            proof {
                assert(list.take(i + 1).drop_last() =~= list.take(i as int));
                assert(list.take(i + 1).last() == mids@[i as int]@);
            }
            self.remove(mids[i].as_str());
        }
        assert(list.take(list.len() as int) =~= list);
    }
}

impl Clone for MdnRow {
    fn clone(&self) -> (r: MdnRow)
        ensures
            r@ == self@,
    {
        MdnRow {
            id: self.id,
            rfc724_mid: self.rfc724_mid.clone(),
            from_id: self.from_id,
            retries: self.retries,
        }
    }
}

proof fn lemma_without(queue: Seq<Receipt>, mids: Seq<Seq<char>>, r: Receipt)
    ensures
        without(queue, mids).contains(r) ==> queue.contains(r) && !mids.contains(r.mid),
    decreases mids.len(),
{
    if mids.len() > 0 {
        let before = without(queue, mids.drop_last());
        lemma_without(queue, mids.drop_last(), r);
        let after = without(queue, mids);
        if after.contains(r) {
            order::lemma_filter_members(before, is_not_for(mids.last()), r);
            if mids.contains(r.mid) {
                let j = mids.index_of(r.mid);
                if j < mids.len() - 1 {
                    assert(mids.drop_last()[j] == r.mid);
                }
            }
        }
    }
}

/// Once a receipt was sent along with all others for the same contact, no receipt for that
/// contact is left in the queue.
pub proof fn law_receipts_for_a_contact_leave_together(queue: Seq<Receipt>, i: int, r: Receipt)
    requires
        0 <= i < queue.len(),
    ensures
        ({
            let mid = queue[i].mid;
            let from_id = queue[i].from_id;
            let sent = seq![mid] + additional_mids(queue, from_id, mid);
            without(queue, sent).contains(r) ==> r.from_id != from_id
        }),
{
    let mid = queue[i].mid;
    let from_id = queue[i].from_id;
    let f = is_additional(from_id, mid);
    let g = |x: Receipt| x.mid;
    let sent = seq![mid] + additional_mids(queue, from_id, mid);
    lemma_without(queue, sent, r);
    if without(queue, sent).contains(r) && r.from_id == from_id {
        assert(sent[0] == mid);
        order::lemma_filter_members(queue, f, r);
        let chosen = queue.filter(f);
        let j = chosen.index_of(r);
        assert(chosen.map_values(g)[j] == r.mid);
        assert(sent[j + 1] == r.mid);
    }
}

/// A receipt that was just tried waits for every other one that was tried no more often.
pub proof fn law_tried_receipt_waits_for_the_others(queue: Seq<Receipt>, i: int, j: int)
    requires
        is_next(queue, i),
        queue[i].retries < i64::MAX,
        0 <= j < queue.len(),
        queue[j].mid != queue[i].mid,
        queue[j].retries <= queue[i].retries,
    ensures
        !is_next(counted(queue, queue[i].mid), i),
{
    let after = counted(queue, queue[i].mid);
    assert(after[i].retries == queue[i].retries + 1);
    assert(after[j] == queue[j]);
}

/// A receipt that was tried more often than the limit is gone after the queue was purged, and
/// only those are.
pub proof fn law_receipt_tries_are_limited(queue: Seq<Receipt>, i: int)
    requires
        0 <= i < queue.len(),
    ensures
        queue.filter(is_triable()).contains(queue[i]) == (queue[i].retries <= MAX_MDN_RETRIES),
{
    order::lemma_filter_members(queue, is_triable(), queue[i]);
}

proof fn lemma_without_iff(queue: Seq<Receipt>, mids: Seq<Seq<char>>, r: Receipt)
    ensures
        without(queue, mids).contains(r) <==> queue.contains(r) && !mids.contains(r.mid),
    decreases mids.len(),
{
    if mids.len() > 0 {
        let front = mids.drop_last();
        lemma_without_iff(queue, front, r);
        order::lemma_filter_members(without(queue, front), is_not_for(mids.last()), r);
        if mids.contains(r.mid) {
            let j = mids.index_of(r.mid);
            if j < front.len() {
                assert(front[j] == r.mid);
            }
        }
        if front.contains(r.mid) {
            assert(mids[front.index_of(r.mid)] == r.mid);
        }
        assert(mids[mids.len() - 1] == mids.last());
    }
}

/// What is sent along with a receipt are exactly the other messages that the queue holds receipts
/// for the same contact for.
pub proof fn law_only_receipts_for_the_contact_are_sent_along(
    queue: Seq<Receipt>,
    from_id: u32,
    mid: Seq<char>,
    m: Seq<char>,
)
    ensures
        additional_mids(queue, from_id, mid).contains(m) <==> m != mid && exists|i: int|
            0 <= i < queue.len() && (#[trigger] queue[i]).from_id == from_id && queue[i].mid == m,
{
    let f = is_additional(from_id, mid);
    let chosen = queue.filter(f);
    let mids = additional_mids(queue, from_id, mid);
    if mids.contains(m) {
        let k = mids.index_of(m);
        assert(chosen.contains(chosen[k]));
        order::lemma_filter_members(queue, f, chosen[k]);
        let i = queue.index_of(chosen[k]);
        assert(queue[i].mid == m);
    }
    if m != mid && exists|i: int|
        0 <= i < queue.len() && (#[trigger] queue[i]).from_id == from_id && queue[i].mid == m {
        let i = choose|i: int|
            0 <= i < queue.len() && (#[trigger] queue[i]).from_id == from_id && queue[i].mid == m;
        order::lemma_filter_members(queue, f, queue[i]);
        let k = chosen.index_of(queue[i]);
        assert(mids[k] == m);
    }
}

/// The messages that are sent along are in the order of the queue, once for each receipt.
pub proof fn law_receipts_sent_along_keep_their_order(
    a: Seq<Receipt>,
    b: Seq<Receipt>,
    r: Receipt,
    from_id: u32,
    mid: Seq<char>,
)
    ensures
        additional_mids(a + b, from_id, mid) == additional_mids(a, from_id, mid) + additional_mids(
            b,
            from_id,
            mid,
        ),
        additional_mids(seq![r], from_id, mid) == if r.from_id == from_id && r.mid != mid {
            seq![r.mid]
        } else {
            Seq::empty()
        },
{
    let f = is_additional(from_id, mid);
    let g = |x: Receipt| x.mid;
    Seq::filter_distributes_over_add(a, b, f);
    assert((a.filter(f) + b.filter(f)).map_values(g) =~= a.filter(f).map_values(g) + b.filter(
        f,
    ).map_values(g));
    let none = Seq::<Receipt>::empty();
    assert(seq![r] =~= none.push(r));
    none.lemma_filter_push(r, f);
    assert(none.filter(f) =~= none);
    assert(additional_mids(seq![r], from_id, mid) =~= if r.from_id == from_id && r.mid != mid {
        seq![r.mid]
    } else {
        Seq::empty()
    });
}

/// Removing messages removes exactly the receipts for them, and leaves the others in their order.
pub proof fn law_removing_receipts(
    queue: Seq<Receipt>,
    more: Seq<Receipt>,
    mids: Seq<Seq<char>>,
    r: Receipt,
)
    ensures
        without(queue, mids).contains(r) <==> queue.contains(r) && !mids.contains(r.mid),
        without(queue + more, mids) == without(queue, mids) + without(more, mids),
    decreases mids.len(),
{
    lemma_without_iff(queue, mids, r);
    if mids.len() > 0 {
        let front = mids.drop_last();
        law_removing_receipts(queue, more, front, r);
        Seq::filter_distributes_over_add(
            without(queue, front),
            without(more, front),
            is_not_for(mids.last()),
        );
    }
}

/// Once a receipt was sent along with all others for the same contact, a receipt is still in the
/// queue if no receipt for that contact is for the same message.
pub proof fn law_other_contacts_keep_their_receipts(queue: Seq<Receipt>, i: int, r: Receipt)
    requires
        0 <= i < queue.len(),
        queue.contains(r),
        forall|j: int|
            0 <= j < queue.len() && (#[trigger] queue[j]).from_id == queue[i].from_id
                ==> queue[j].mid != r.mid,
    ensures
        without(
            queue,
            seq![queue[i].mid] + additional_mids(queue, queue[i].from_id, queue[i].mid),
        ).contains(r),
{
    let along = additional_mids(queue, queue[i].from_id, queue[i].mid);
    let sent = seq![queue[i].mid] + along;
    lemma_without_iff(queue, sent, r);
    law_only_receipts_for_the_contact_are_sent_along(
        queue,
        queue[i].from_id,
        queue[i].mid,
        r.mid,
    );
    if sent.contains(r.mid) {
        let k = sent.index_of(r.mid);
        if k > 0 {
            assert(along[k - 1] == r.mid);
        }
    }
}

/// Counting a try for a message raises the count of each receipt for it by one, and changes
/// nothing else.
pub proof fn law_counting_a_try(queue: Seq<Receipt>, mid: Seq<char>, i: int)
    requires
        0 <= i < queue.len(),
        queue[i].retries < i64::MAX,
    ensures
        ({
            let after = counted(queue, mid);
            &&& after.len() == queue.len()
            &&& after[i].id == queue[i].id
            &&& after[i].mid == queue[i].mid
            &&& after[i].from_id == queue[i].from_id
            &&& after[i].retries == queue[i].retries + if queue[i].mid == mid {
                1int
            } else {
                0int
            }
        }),
{
}

/// Purging the queue drops exactly the receipts that were tried more than six times, and leaves
/// the others in their order.
pub proof fn law_purging_drops_what_was_tried_too_often(
    queue: Seq<Receipt>,
    more: Seq<Receipt>,
    r: Receipt,
)
    ensures
        queue.filter(is_triable()).contains(r) <==> queue.contains(r) && r.retries <= 6,
        (queue + more).filter(is_triable()) == queue.filter(is_triable()) + more.filter(
            is_triable(),
        ),
{
    order::lemma_filter_members(queue, is_triable(), r);
    Seq::filter_distributes_over_add(queue, more, is_triable());
}

/// The receipt to send was tried no more often than any other, and it is the only one to send.
pub proof fn law_next_receipt_was_tried_least(queue: Seq<Receipt>, i: int, j: int)
    requires
        is_next(queue, i),
        0 <= j < queue.len(),
    ensures
        0 <= i < queue.len(),
        queue[i].retries <= queue[j].retries,
        is_next(queue, j) ==> i == j,
{
    let a = queue[i];
    let b = queue[j];
    assert(a.retries <= b.retries);
    if is_next(queue, j) && i < j {
        assert(b.retries < a.retries);
    } else if is_next(queue, j) && j < i {
        assert(b.retries <= a.retries);
        assert(a.retries < b.retries);
    }
}

/// A row is seen as it is.
pub proof fn law_receipt_row_is_seen_as_it_is(queue: MdnQueue, i: int)
    requires
        0 <= i < queue.rows@.len(),
    ensures
        queue@.len() == queue.rows@.len(),
        queue@[i].id == queue.rows@[i].id,
        queue@[i].mid == queue.rows@[i].rfc724_mid@,
        queue@[i].from_id == queue.rows@[i].from_id,
        queue@[i].retries == queue.rows@[i].retries,
{
}

} // verus!
