//! What the events of a sending job lead to: whom the message goes to, and what becomes of it.

use vstd::prelude::*;

use crate::address;
use crate::delivery;
use crate::queue::MsgId;
use crate::reply::SendResult;
use crate::send_job;
use crate::send_job::{QueueEntry, SendAction, SendEvent, SendJob};
use crate::send_laws;
use crate::send_laws::Course;
use crate::smtp::SmtpError;
use crate::text;
use crate::text_set;

verus! {

/// The message that was loaded.
pub open spec fn loaded(c: Course) -> Option<QueueEntry> {
    if c.events.len() > 2 {
        match c.events[2] {
            SendEvent::Loaded(entry) => entry,
            _ => None,
        }
    } else {
        None
    }
}

/// Whether the message is encrypted, with keys or a secret, and own addresses get a copy.
pub open spec fn copies_encrypted(entry: QueueEntry) -> bool {
    entry.mail.bcc_self && (entry.mail.encryption is Asymmetric
        || entry.mail.encryption is Symmetric)
}

/// The own addresses, if they were asked for.
pub open spec fn own_addresses(c: Course) -> Option<Seq<Seq<char>>> {
    if c.events.len() > 3 {
        match c.events[3] {
            SendEvent::SelfAddrs(addrs) => Some(text::texts(addrs@)),
            _ => None,
        }
    } else {
        None
    }
}

/// How many recipients the server takes at once, as it said.
pub open spec fn told_limit(c: Course) -> Option<u32> {
    if c.events.len() > 4 && c.events[4] is MaxRecipients {
        Some(c.events[4]->MaxRecipients_0)
    } else if c.events.len() > 5 && c.events[5] is MaxRecipients {
        Some(c.events[5]->MaxRecipients_0)
    } else {
        None
    }
}

/// Whether the message is meant for an address: as a recipient, or as an own address that gets a
/// copy. That is the one that is sent from and, if the message is encrypted, every other one.
pub open spec fn is_meant_for(c: Course, a: Seq<char>) -> bool {
    let entry = loaded(c)->0;
    ||| text::texts(entry.mail.recipients@).contains(a)
    ||| entry.mail.bcc_self && c.links[2].from == Some(a)
    ||| copies_encrypted(entry) && own_addresses(c) is Some && own_addresses(c)->0.contains(a)
}

spec fn copies(c: Course) -> Seq<Seq<char>> {
    let entry = loaded(c)->0;
    if entry.mail.bcc_self {
        delivery::self_recipients(
            match own_addresses(c) {
                Some(addrs) => addrs,
                None => Seq::empty(),
            },
            !(entry.mail.encryption is No),
            c.links[2].from->0,
        )
    } else {
        Seq::empty()
    }
}

spec fn list(c: Course) -> Seq<Seq<char>> {
    text::texts(loaded(c)->0.mail.recipients@) + copies(c)
}

spec fn sent_before(c: Course) -> Set<Seq<char>> {
    text::texts(loaded(c)->0.mail.sent_to@).to_set()
}

spec fn is_begun(c: Course, entry: QueueEntry) -> bool {
    &&& loaded(c) == Some(entry)
    &&& entry.retries <= 6
    &&& entry.mail.bcc_self ==> c.links[2].from is Some
    &&& copies_encrypted(entry) <==> own_addresses(c) is Some
}

spec fn is_delivering(c: Course, msg_id: MsgId, p: delivery::Progress) -> bool {
    &&& loaded(c) is Some
    &&& is_begun(c, loaded(c)->0)
    &&& msg_id == loaded(c)->0.msg_id
    &&& p.recipients == delivery::pending_recipients(list(c), sent_before(c))
    &&& told_limit(c) is Some
    &&& p.limit == if told_limit(c)->0 == 0 {
        1
    } else {
        told_limit(c)->0
    }
    &&& p.sent_to == sent_before(c).union(p.recipients.take(p.done + p.in_flight).to_set())
}

spec fn is_refused(c: Course, i: int, reason: String) -> bool {
    exists|k: int| 0 <= k < i && #[trigger] c.events[k] == SendEvent::ChunkDone(
        SendResult::Failure(reason),
    )
}

spec fn facts(c: Course, i: int) -> bool {
    match c.jobs[i] {
        SendJob::Connecting => i == 0,
        SendJob::Counting => i == 1,
        SendJob::Loading => i == 2,
        SendJob::Dropping(id) => i == 3 && c.actions[i] is DeleteRow,
        SendJob::MarkingDropped => i == 4 && c.actions[i] is MarkFailed,
        SendJob::AddingSelf { entry, from } => {
            &&& i == 3
            &&& loaded(c) == Some(entry)
            &&& entry.retries <= 6
            &&& copies_encrypted(entry)
            &&& c.links[2].from == Some(from@)
            &&& c.actions[i] is GetSelfAddrs
        },
        SendJob::Preparing { entry, recipients } => {
            &&& i == 3 || i == 4
            &&& loaded(c) == Some(entry)
            &&& entry.retries <= 6
            &&& entry.mail.bcc_self ==> c.links[2].from is Some
            &&& i == 4 <==> copies_encrypted(entry)
            &&& i == 4 ==> own_addresses(c) is Some
            &&& i == 3 ==> text::texts(recipients@) == text::texts(entry.mail.recipients@) + (
            if entry.mail.bcc_self {
                seq![c.links[2].from->0]
            } else {
                Seq::empty()
            })
            &&& i == 4 ==> text::texts(recipients@) == list(c)
            &&& c.actions[i] is LoadKeys
        },
        SendJob::Limiting { entry, recipients, from } => {
            &&& i == 4 || i == 5
            &&& is_begun(c, entry)
            &&& i == 5 <==> copies_encrypted(entry)
            &&& text::texts(recipients@) == list(c)
            &&& c.links[i - 1].from == Some(from@)
            &&& c.actions[i] is GetMaxRecipients
        },
        SendJob::Rendering { msg_id, delivery } => {
            &&& i == 5 || i == 6
            &&& is_delivering(c, msg_id, delivery@)
            &&& delivery@.done == 0
            &&& delivery@.in_flight == 0
            &&& c.actions[i] is Render
        },
        SendJob::Sending { msg_id, delivery, .. } => {
            &&& i > 5
            &&& is_delivering(c, msg_id, delivery@)
            &&& c.actions[i] is SendChunk
        },
        SendJob::Saving { msg_id, delivery, .. } => {
            &&& i > 5
            &&& is_delivering(c, msg_id, delivery@)
            &&& c.actions[i] is SaveSentTo
        },
        SendJob::Completing { msg_id, delivery, .. } => {
            &&& i > 5
            &&& is_delivering(c, msg_id, delivery@)
            &&& delivery@.rest() == 0
            &&& c.actions[i] is DeleteRow
            &&& c.events[i - 1] == SendEvent::ChunkDone(SendResult::Success)
        },
        SendJob::Reporting(id) => loaded(c) is Some && id == loaded(c)->0.msg_id
            && c.actions[i] is Report && i > 5,
        SendJob::Checking(id) => loaded(c) is Some && id == loaded(c)->0.msg_id
            && c.actions[i] is CheckPending && i > 5,
        SendJob::MarkingDelivered => loaded(c) is Some && c.events[i - 1] == SendEvent::Pending(
            false,
        ) && c.actions[i] == SendAction::SetDelivered(loaded(c)->0.msg_id) && i > 5,
        SendJob::Explaining { reason } => {
            &&& i > 5
            &&& loaded(c) is Some
            &&& c.events[i - 1] == SendEvent::ChunkDone(SendResult::Failure(reason))
            &&& send_job::refuses_unencrypted(text::lowercase(reason@))
            &&& c.actions[i] == SendAction::FindChat(loaded(c)->0.msg_id)
        },
        SendJob::Locating { chat_id, timestamp, reason } => {
            &&& i > 5
            &&& c.events[i - 1] == SendEvent::ChatFound(Some((chat_id, timestamp)))
            &&& c.events[i - 2] == SendEvent::ChunkDone(SendResult::Failure(reason))
            &&& send_job::refuses_unencrypted(text::lowercase(reason@))
            &&& c.actions[i] is GetConfiguredAddr
        },
        SendJob::Informing { reason } => {
            &&& i > 5
            &&& c.events[i - 1] is ConfiguredAddr
            &&& c.events[i - 2] is ChatFound
            &&& c.events[i - 3] == SendEvent::ChunkDone(SendResult::Failure(reason))
            &&& send_job::refuses_unencrypted(text::lowercase(reason@))
            &&& c.actions[i] is AddInfo
        },
        SendJob::Rejecting { reason } => i > 5 && is_refused(c, i, reason)
            && c.actions[i] is DeleteRow,
        SendJob::Done => i > 0 && c.actions[i] is Finish,
    }
}

proof fn lemma_facts(c: Course, i: int)
    requires
        c.valid(),
        0 <= i < c.jobs.len(),
    ensures
        facts(c, i),
    decreases i,
{
    if i > 0 {
        lemma_facts(c, i - 1);
        assert(c.events[i - 1].answers(c.jobs[i - 1]));
        assert(c.jobs[i].wf() && c.jobs[i - 1].wf());
        match c.jobs[i - 1] {
            SendJob::Loading => {
                if let SendEvent::Loaded(Some(entry)) = c.events[i - 1] {
                    let none = Seq::<Seq<char>>::empty();
                    assert(none.push(c.links[2].from->0) =~= seq![c.links[2].from->0]);
                    assert(text::texts(entry.mail.recipients@) + none =~= text::texts(
                        entry.mail.recipients@,
                    ));
                }
            },
            SendJob::Preparing { entry, recipients } => {
                if i == 4 {
                    let none = Seq::<Seq<char>>::empty();
                    assert(own_addresses(c) is None);
                    if entry.mail.bcc_self {
                        assert(entry.mail.encryption is No);
                        assert(copies(c) =~= seq![c.links[2].from->0]);
                    } else {
                        assert(copies(c) =~= none);
                    }
                }
            },
            SendJob::Limiting { .. } => {
                if let SendJob::Rendering { delivery, .. } = c.jobs[i] {
                    let p = delivery@;
                    assert(p.recipients.take(0).to_set() =~= Set::<Seq<char>>::empty());
                    assert(p.sent_to =~= sent_before(c).union(p.recipients.take(0).to_set()));
                }
            },
            SendJob::Rendering { delivery, .. } => {
                if let SendJob::Sending { delivery: d, .. } = c.jobs[i] {
                    lemma_next_sent_to(c, delivery, d);
                }
            },
            SendJob::Saving { delivery, .. } => {
                if let SendJob::Sending { delivery: d, .. } = c.jobs[i] {
                    lemma_next_sent_to(c, delivery, d);
                }
            },
            SendJob::Sending { delivery, .. } => {
                delivery.lemma_wf();
                if let SendEvent::ChunkDone(SendResult::Failure(reason)) = c.events[i - 1] {
                    assert(is_refused(c, i, reason));
                }
            },
            SendJob::Explaining { reason } => {
                assert(is_refused(c, i, reason)) by {
                    assert(c.events[i - 2] == SendEvent::ChunkDone(SendResult::Failure(reason)));
                }
            },
            SendJob::Informing { reason } => {
                assert(is_refused(c, i, reason)) by {
                    assert(c.events[i - 4] == SendEvent::ChunkDone(SendResult::Failure(reason)));
                }
            },
            _ => {},
        }
    }
}

proof fn lemma_next_sent_to(c: Course, before: delivery::Delivery, after: delivery::Delivery)
    requires
        before.wf(),
        after.wf(),
        after@ == before@.with_next_chunk(),
        before@.sent_to == sent_before(c).union(
            before@.recipients.take(before@.done + before@.in_flight).to_set(),
        ),
    ensures
        after@.sent_to == sent_before(c).union(
            after@.recipients.take(after@.done + after@.in_flight).to_set(),
        ),
{
    before.lemma_wf();
    after.lemma_wf();
    let all = before@.recipients;
    let from = before@.done + before@.in_flight;
    let upto = after@.done + after@.in_flight;
    let chunk = all.subrange(from, upto);
    assert(all.take(upto) =~= all.take(from) + chunk);
    vstd::seq_lib::seq_to_set_distributes_over_add(all.take(from), chunk);
    assert(after@.sent_to =~= sent_before(c).union(all.take(upto).to_set()));
}

/// Own addresses are asked for exactly if they get a copy of a message that is encrypted, be it
/// with keys or with a secret, and that was not tried too often.
pub proof fn law_own_addresses_are_asked_for(c: Course)
    requires
        c.valid(),
        loaded(c) is Some,
    ensures
        ({
            let entry = loaded(c)->0;
            c.actions[3] is GetSelfAddrs <==> copies_encrypted(entry) && entry.retries <= 6
                && c.links[2].from is Some
        }),
{
    send_laws::lemma_early(c, 2);
    assert(c.events[2].answers(c.jobs[2]));
    if c.events.len() > 1 {
        assert(c.events[1].answers(c.jobs[1]));
    }
}

/// Once a message is being delivered, it goes to exactly those that it is meant for, without those
/// that it was sent to before and without invalid addresses. For a copy of an encrypted message
/// the own addresses were asked for.
pub proof fn law_message_goes_to_whom_it_is_meant_for(c: Course, i: int, a: Seq<char>)
    requires
        c.valid(),
        0 <= i < c.jobs.len(),
        send_laws::delivery_of(c.jobs[i]) is Some,
    ensures
        loaded(c) is Some,
        copies_encrypted(loaded(c)->0) ==> own_addresses(c) is Some,
        loaded(c)->0.mail.bcc_self ==> c.links[2].from is Some,
        send_laws::delivery_of(c.jobs[i])->0@.recipients.contains(a) <==> is_meant_for(c, a)
            && address::valid_address(a) && !text::texts(
            loaded(c)->0.mail.sent_to@,
        ).contains(a),
{
    lemma_facts(c, i);
    let entry = loaded(c)->0;
    let d = send_laws::delivery_of(c.jobs[i])->0@;
    let sent = text::texts(entry.mail.sent_to@);
    let addrs = match own_addresses(c) {
        Some(own) => own,
        None => Seq::empty(),
    };
    let named = text::texts(entry.mail.recipients@);
    assert(is_delivering(c, entry.msg_id, d));
    delivery::law_pending_recipients(list(c), sent_before(c));
    assert(d.recipients.contains(a) <==> list(c).contains(a) && !sent_before(c).contains(a)
        && address::valid_address(a));
    assert(sent_before(c).contains(a) == sent.contains(a));
    if entry.mail.bcc_self {
        delivery::law_own_copies(
            addrs,
            Seq::empty(),
            !(entry.mail.encryption is No),
            c.links[2].from->0,
            a,
        );
    }
    if list(c).contains(a) {
        let k = list(c).index_of(a);
        if k < named.len() {
            assert(named[k] == a);
        } else {
            assert(copies(c)[k - named.len()] == a);
        }
    }
    if named.contains(a) {
        assert(list(c)[named.index_of(a)] == a);
    }
    if copies(c).contains(a) {
        assert(list(c)[named.len() + copies(c).index_of(a)] == a);
    }
}

/// The recipients come in their order before the own addresses; the address that is sent from
/// comes last if it gets a copy, is valid and was not served before.
pub proof fn law_own_addresses_come_after_the_recipients(c: Course, i: int)
    requires
        c.valid(),
        0 <= i < c.jobs.len(),
        send_laws::delivery_of(c.jobs[i]) is Some,
    ensures
        ({
            let entry = loaded(c)->0;
            let all = send_laws::delivery_of(c.jobs[i])->0@.recipients;
            let sent = text::texts(entry.mail.sent_to@).to_set();
            let named = delivery::pending_recipients(text::texts(entry.mail.recipients@), sent);
            &&& loaded(c) is Some
            &&& named.is_prefix_of(all)
            &&& !entry.mail.bcc_self ==> all == named
            &&& entry.mail.bcc_self && address::valid_address(c.links[2].from->0)
                && !sent.contains(c.links[2].from->0) ==> all.len() > 0 && all.last()
                == c.links[2].from->0
        }),
{
    lemma_facts(c, i);
    let entry = loaded(c)->0;
    let d = send_laws::delivery_of(c.jobs[i])->0@;
    let sent = sent_before(c);
    let named = text::texts(entry.mail.recipients@);
    assert(is_delivering(c, entry.msg_id, d));
    let from = c.links[2].from->0;
    delivery::law_pending_recipients_keep_their_order(named, copies(c), from, sent);
    let first = delivery::pending_recipients(named, sent);
    let second = delivery::pending_recipients(copies(c), sent);
    assert(d.recipients == first + second);
    assert(d.recipients.subrange(0, first.len() as int) =~= first);
    if !entry.mail.bcc_self {
        assert(copies(c) =~= Seq::empty());
        assert(second =~= Seq::empty()) by {
            delivery::law_pending_recipients(copies(c), sent);
            if second.len() > 0 {
                assert(second.contains(second[0]));
            }
        }
        assert(d.recipients =~= first);
    } else {
        let others = copies(c).drop_last();
        assert(copies(c) =~= others + seq![from]);
        delivery::law_pending_recipients_keep_their_order(others, seq![from], from, sent);
    }
}

/// A portion holds no more recipients than the server takes at once, or one if it takes none; it
/// holds less only if nobody is left. It is sent for the message that was loaded.
pub proof fn law_portions_fit_the_server(c: Course, i: int)
    requires
        c.valid(),
        0 <= i < c.actions.len(),
        c.actions[i] is SendChunk,
    ensures
        ({
            let chunk = c.actions[i]->SendChunk_chunk;
            let limit = if told_limit(c)->0 == 0 {
                1
            } else {
                told_limit(c)->0
            };
            &&& loaded(c) is Some
            &&& c.actions[i]->SendChunk_msg_id == loaded(c)->0.msg_id
            &&& told_limit(c) is Some
            &&& chunk@.len() <= limit
            &&& c.jobs[i] is Sending
            &&& chunk@.len() == limit || send_laws::addressed(c.actions_until(i))
                == c.jobs[i]->Sending_delivery@.recipients
        }),
{
    lemma_facts(c, i);
    lemma_facts(c, i - 1);
    send_laws::law_recipients_are_served_in_order(c, i);
    assert(c.events[i - 1].answers(c.jobs[i - 1]));
    assert(c.jobs[i].wf() && c.jobs[i - 1].wf());
    let chunk = c.actions[i]->SendChunk_chunk;
    let d = c.jobs[i]->Sending_delivery;
    let b = send_laws::delivery_of(c.jobs[i - 1])->0;
    d.lemma_wf();
    b.lemma_wf();
    assert(text::texts(chunk@).len() == chunk@.len());
    assert(d@ == b@.with_next_chunk());
    if d@.done + d@.in_flight == d@.recipients.len() {
        assert(d@.recipients.take(d@.recipients.len() as int) =~= d@.recipients);
    }
}

/// What is rendered is the message that was loaded, with the address that the connection sends
/// from; and the limit is asked of the server that is connected.
pub proof fn law_loaded_message_is_rendered(c: Course, i: int)
    requires
        c.valid(),
        0 < i < c.actions.len(),
    ensures
        c.actions[i] matches SendAction::Render { mail, from } ==> {
            &&& loaded(c) is Some
            &&& mail == loaded(c)->0.mail
            &&& i >= 2
            &&& c.links[i - 2].from == Some(from@)
        },
        c.actions[i] matches SendAction::GetMaxRecipients { transport_id, from } ==> {
            &&& c.links[i - 1].transport_id == Some(transport_id)
            &&& c.links[i - 1].from == Some(from@)
        },
{
    lemma_facts(c, i);
    lemma_facts(c, i - 1);
    assert(c.events[i - 1].answers(c.jobs[i - 1]));
}

/// After each portion but the last one, the addresses that the message was sent to are stored:
/// those from before, and those that it was handed to the server for. Addresses hold no spaces.
pub proof fn law_progress_is_stored(c: Course, i: int, a: Seq<char>)
    requires
        c.valid(),
        0 <= i < c.actions.len(),
        c.actions[i] is SaveSentTo,
        loaded(c) is Some,
        forall|k: int|
            0 <= k < loaded(c)->0.mail.sent_to@.len() ==> !(
            #[trigger] loaded(c)->0.mail.sent_to@[k])@.contains(' ')
                && loaded(c)->0.mail.sent_to@[k]@.len() > 0,
        !send_laws::addressed(c.actions_until(i)).contains(Seq::<char>::empty()),
    ensures
        ({
            let stored = text::stored_list(c.actions[i]->SaveSentTo_0@);
            stored.contains(a) <==> text::texts(loaded(c)->0.mail.sent_to@).contains(a)
                || send_laws::addressed(c.actions_until(i)).contains(a)
        }),
{
    reveal_strlit(" ");
    assert(" "@ =~= seq![' ']);
    lemma_facts(c, i);
    lemma_facts(c, i - 1);
    assert(c.events[i - 1].answers(c.jobs[i - 1]));
    send_laws::law_recipients_are_served_in_order(c, i);
    let d = c.jobs[i]->Saving_delivery;
    d.lemma_wf();
    let set = d@.sent_to;
    let list = text_set::listing(set);
    let served = send_laws::addressed(c.actions_until(i));
    let before = text::texts(loaded(c)->0.mail.sent_to@);
    assert(served == d@.recipients.take(d@.done + d@.in_flight));
    assert(set.finite());
    text_set::law_listing(set, a);
    assert(before.to_set().contains(a) == before.contains(a));
    assert(served.to_set().contains(a) == served.contains(a));
    assert forall|k: int| 0 <= k < list.len() implies !(#[trigger] list[k]).contains(' ')
        && list[k].len() > 0 by {
        text_set::law_listing(set, list[k]);
        assert(list.contains(list[k]));
        if served.contains(list[k]) {
            let m = served.index_of(list[k]);
            assert(d@.recipients.contains(d@.recipients[m]));
            law_message_goes_to_whom_it_is_meant_for(c, i, list[k]);
            assert(address::valid_address(list[k]));
            if list[k].len() == 0 {
                assert(list[k] =~= Seq::<char>::empty());
            }
        } else {
            assert(before.to_set().contains(list[k]));
            let m = before.index_of(list[k]);
            assert(loaded(c)->0.mail.sent_to@[m]@ == list[k]);
        }
    }
    if list == seq![Seq::<char>::empty()] {
        assert(list[0].len() > 0);
    }
    text::lemma_stored_list_round_trip(list);
}

/// If the server asks to try again later, the job ends at once and the message stays in the queue.
pub proof fn law_retry_keeps_the_message(c: Course, i: int)
    requires
        c.valid(),
        0 <= i < c.events.len(),
        c.events[i] == SendEvent::ChunkDone(SendResult::Retry),
    ensures
        i == c.events.len() - 1,
        c.actions.last() == SendAction::Finish(Err(SmtpError::Retry)),
        send_laws::deletions(c.actions) == 0,
{
    lemma_facts(c, i);
    assert(c.events[i].answers(c.jobs[i]));
    assert(c.jobs[i + 1] is Done);
    if i + 1 < c.events.len() {
        assert(c.events[i + 1].answers(c.jobs[i + 1]));
    }
    send_laws::law_message_stays_unless_settled(c);
}

spec fn goes_with(job: SendJob, action: SendAction, reason: String) -> bool {
    match job {
        SendJob::Explaining { reason: r } => r == reason,
        SendJob::Locating { reason: r, .. } => r == reason,
        SendJob::Informing { reason: r } => r == reason,
        SendJob::Rejecting { reason: r } => r == reason,
        SendJob::Done => action == SendAction::Finish(Err(SmtpError::Refused(reason))),
        _ => false,
    }
}

proof fn lemma_refused(c: Course, k: int, reason: String, i: int)
    requires
        c.valid(),
        0 <= k < i < c.jobs.len(),
        c.events[k] == SendEvent::ChunkDone(SendResult::Failure(reason)),
    ensures
        goes_with(c.jobs[i], c.actions[i], reason),
        !(c.actions[i] is SendChunk),
    decreases i,
{
    assert(c.events[i - 1].answers(c.jobs[i - 1]));
    if i > k + 1 {
        lemma_refused(c, k, reason, i - 1);
    }
}

/// If the server refuses the message, nothing more of it is sent. It leaves the queue, and the job
/// ends with the reason.
pub proof fn law_refused_message_leaves_the_queue(c: Course, k: int, reason: String)
    requires
        c.valid(),
        0 <= k < c.events.len(),
        c.events[k] == SendEvent::ChunkDone(SendResult::Failure(reason)),
        c.actions.last() is Finish,
    ensures
        c.actions.last() == SendAction::Finish(Err(SmtpError::Refused(reason))),
        send_laws::deletions(c.actions) == 1,
        forall|i: int| k < i < c.actions.len() ==> !(#[trigger] c.actions[i] is SendChunk),
{
    let n = c.jobs.len() - 1;
    lemma_facts(c, n);
    lemma_refused(c, k, reason, n);
    send_laws::law_message_stays_unless_settled(c);
    assert forall|i: int| k < i < c.actions.len() implies !(
    #[trigger] c.actions[i] is SendChunk) by {
        lemma_refused(c, k, reason, i);
    }
}

/// When the server says that it refuses unencrypted mail, in whichever case it writes that, the
/// chat of the message is looked for; with any other reason the row is deleted at once.
pub proof fn law_refusal_of_unencrypted_mail_is_noticed(c: Course, k: int, reason: String)
    requires
        c.valid(),
        0 <= k < c.events.len(),
        c.events[k] == SendEvent::ChunkDone(SendResult::Failure(reason)),
    ensures
        loaded(c) is Some,
        text::occurs("invalid unencrypted mail"@, text::lowercase(reason@)) ==> c.actions[k + 1]
            == SendAction::FindChat(loaded(c)->0.msg_id),
        !text::occurs("invalid unencrypted mail"@, text::lowercase(reason@)) ==> c.actions[k
            + 1] is DeleteRow,
{
    lemma_facts(c, k);
    assert(c.events[k].answers(c.jobs[k]));
}

/// A chat is told that its message was refused as unencrypted exactly if the server said so and
/// the chat was found. It is told in the chat of the message, at its time, and which domain it was.
pub proof fn law_chat_is_told_of_the_refusal(c: Course, i: int)
    requires
        c.valid(),
        0 <= i < c.actions.len(),
    ensures
        c.actions[i] matches SendAction::AddInfo { chat_id, timestamp, domain } ==> {
            &&& i >= 3
            &&& c.events[i - 3] matches SendEvent::ChunkDone(SendResult::Failure(reason))
            &&& text::occurs("invalid unencrypted mail"@, text::lowercase(reason@))
            &&& c.events[i - 2] == SendEvent::ChatFound(Some((chat_id, timestamp)))
            &&& c.events[i - 1] matches SendEvent::ConfiguredAddr(addr)
            &&& addr is None ==> domain@.len() == 0
            &&& addr is Some ==> domain@ == send_job::domain_part(addr->0@)
        },
        i < c.events.len() && (c.events[i] matches SendEvent::ChatFound(Some(_)))
            ==> c.actions[i + 1] is GetConfiguredAddr,
        i < c.events.len() && c.events[i] is ConfiguredAddr ==> c.actions[i + 1] is AddInfo,
{
    lemma_facts(c, i);
    if i > 0 {
        lemma_facts(c, i - 1);
        assert(c.events[i - 1].answers(c.jobs[i - 1]));
    }
    if i > 1 {
        lemma_facts(c, i - 2);
        assert(c.events[i - 2].answers(c.jobs[i - 2]));
    }
    if i < c.events.len() {
        assert(c.events[i].answers(c.jobs[i]));
    }
}

/// The domain of an address is what stands between its first `@` and the next one, or its end; an
/// address without one has an empty domain.
pub proof fn law_domain_of_an_address(parts: Seq<Seq<char>>, plain: Seq<char>)
    requires
        parts.len() >= 2,
        forall|i: int| 0 <= i < parts.len() ==> !(#[trigger] parts[i]).contains('@'),
        !plain.contains('@'),
    ensures
        send_job::domain_part(text::joined(parts, seq!['@'])) == parts[1],
        send_job::domain_part(plain).len() == 0,
{
    text::lemma_split_of_join(parts, '@');
    let one = seq![plain];
    text::lemma_split_of_join(one, '@');
    assert(text::joined(one, seq!['@']) == plain);
}

/// A message is only marked as delivered, or reported as sent, after everything was handed to the
/// server and the server took the last portion; and it is marked as delivered only if no other row
/// of it waits.
pub proof fn law_delivered_means_sent_to_everybody(c: Course, i: int)
    requires
        c.valid(),
        0 <= i < c.actions.len(),
        c.actions[i] is SetDelivered || c.actions[i] is Report || c.actions[i] is CheckPending,
    ensures
        loaded(c) is Some,
        c.actions[i] matches SendAction::SetDelivered(id) ==> id == loaded(c)->0.msg_id
            && c.events[i - 1] == SendEvent::Pending(false),
        c.actions[i] matches SendAction::CheckPending(id) ==> id == loaded(c)->0.msg_id,
        exists|k: int|
            0 < k < i && #[trigger] c.jobs[k] is Completing && c.events[k - 1]
                == SendEvent::ChunkDone(SendResult::Success) && send_laws::addressed(
                c.actions_until(k),
            ) == c.jobs[k]->Completing_delivery@.recipients,
{
    lemma_facts(c, i);
    lemma_completed(c, i);
    let k = choose|k: int| 0 < k < i && #[trigger] c.jobs[k] is Completing;
    lemma_facts(c, k);
    send_laws::law_recipients_are_served_in_order(c, k);
}

proof fn lemma_completed(c: Course, i: int)
    requires
        c.valid(),
        0 <= i < c.jobs.len(),
        c.jobs[i] is Reporting || c.jobs[i] is Checking || c.jobs[i] is MarkingDelivered,
    ensures
        exists|k: int| 0 < k < i && #[trigger] c.jobs[k] is Completing,
    decreases i,
{
    lemma_facts(c, i);
    lemma_facts(c, i - 1);
    assert(c.events[i - 1].answers(c.jobs[i - 1]));
    if c.jobs[i] is Reporting {
        assert(c.jobs[i - 1] is Completing);
    } else {
        lemma_completed(c, i - 1);
    }
}

/// When the last portion was taken, the row is deleted, the sending is reported with the length
/// and the number of addresses, and other rows of the message are looked for.
pub proof fn law_sent_message_is_reported(c: Course, i: int)
    requires
        c.valid(),
        0 < i < c.events.len(),
    ensures
        c.events[i] == SendEvent::ChunkDone(SendResult::Success) ==> {
            &&& c.jobs[i] is Sending
            &&& c.actions[i + 1] is DeleteRow <==> c.jobs[i]->Sending_delivery@.rest() == 0
            &&& c.actions[i + 1] is SaveSentTo <==> c.jobs[i]->Sending_delivery@.rest() > 0
        },
        c.jobs[i] is Completing ==> c.actions[i + 1] is Report && c.actions[i + 1]->Report_0@
            == "Message len="@ + text::decimal(c.jobs[i]->Completing_len as nat)
            + " was SMTP-sent to "@ + text::decimal(
            c.jobs[i]->Completing_delivery@.sent_to.len(),
        ) + " recipients."@,
        c.events[i] is Reported ==> c.actions[i + 1] is CheckPending,
        c.events[i] == SendEvent::Pending(false) ==> c.actions[i + 1] is SetDelivered,
        c.events[i] is SentToSaved ==> c.actions[i + 1] is SendChunk || c.actions[i + 1] is Finish,
        c.events[i] is Rendered ==> c.actions[i + 1] is SendChunk || c.actions[i + 1] is Finish,
{
    lemma_facts(c, i);
    assert(c.events[i].answers(c.jobs[i]));
    assert(c.jobs[i].wf());
    if let SendJob::Sending { delivery, .. } = c.jobs[i] {
        delivery.lemma_wf();
    }
}

/// A message is only marked as failed here if it was tried more than six times, and then under its
/// own identifier.
pub proof fn law_only_tries_make_a_message_fail(c: Course, i: int)
    requires
        c.valid(),
        0 <= i < c.actions.len(),
        c.actions[i] is MarkFailed,
    ensures
        c.events.len() > 2,
        match c.events[2] {
            SendEvent::Loaded(Some(entry)) => entry.retries > 6 && entry.msg_id
                == c.actions[i]->MarkFailed_msg_id,
            SendEvent::Unreadable { msg_id, retries, .. } => retries > 6 && msg_id
                == c.actions[i]->MarkFailed_msg_id,
            _ => false,
        },
        c.actions[i]->MarkFailed_reason@ == "Number of retries exceeded the limit."@,
{
    lemma_facts(c, i);
    lemma_facts(c, i - 1);
    assert(c.events[i - 1].answers(c.jobs[i - 1]));
    lemma_facts(c, 2);
    send_laws::lemma_early(c, 2);
    assert(c.events[2].answers(c.jobs[2]));
}

/// A message that was tried six times or less is taken up: unless it is not known which address to
/// send from, the next thing is to find out the own addresses or to load the keys.
pub proof fn law_message_is_taken_up(c: Course)
    requires
        c.valid(),
        loaded(c) is Some,
    ensures
        loaded(c)->0.retries <= 6 && (loaded(c)->0.mail.bcc_self ==> c.links[2].from is Some)
            ==> c.actions[3] is GetSelfAddrs || c.actions[3] is LoadKeys,
        loaded(c)->0.retries > 6 ==> c.actions[3] is DeleteRow,
        loaded(c)->0.retries <= 6 && loaded(c)->0.mail.bcc_self && c.links[2].from is None
            ==> c.actions[3] == SendAction::Finish(Err(SmtpError::NoFrom)),
{
    send_laws::lemma_early(c, 2);
    assert(c.events[2].answers(c.jobs[2]));
}

/// A job ends well only if the row was gone, was dropped after too many tries, or was sent to
/// everybody. It ends with an error only for the reason that the error names.
pub proof fn law_end_of_a_job(c: Course)
    requires
        c.valid(),
        c.actions.last() is Finish,
    ensures
        c.events.len() > 0,
        match c.actions.last()->Finish_0 {
            Ok(_) => match c.events.last() {
                SendEvent::Loaded(None) => true,
                SendEvent::MarkedFailed => true,
                SendEvent::Pending(pending) => pending,
                SendEvent::MarkedDelivered => true,
                _ => false,
            },
            Err(SmtpError::ConnectionFailure(cause)) => c.events.last()
                == SendEvent::ConnectFailed(cause),
            Err(SmtpError::Unreadable(cause)) => c.events.last() matches SendEvent::Unreadable {
                retries,
                cause: text,
                ..
            } && text == cause && retries <= 6,
            Err(SmtpError::NoFrom) => c.links.last().from is None,
            Err(SmtpError::NotConnected) => c.links.last().transport_id is None,
            Err(SmtpError::TooManyRecipients) => send_laws::delivery_of(
                c.jobs[c.jobs.len() - 2],
            ) matches Some(d) && d@.rest() > u32::MAX,
            Err(SmtpError::Retry) => c.events.last() == SendEvent::ChunkDone(SendResult::Retry),
            Err(SmtpError::Refused(reason)) => exists|k: int|
                0 <= k < c.events.len() && #[trigger] c.events[k] == SendEvent::ChunkDone(
                    SendResult::Failure(reason),
                ),
            Err(_) => false,
        },
{
    let n = c.jobs.len() - 1;
    lemma_facts(c, n);
    lemma_facts(c, n - 1);
    assert(c.events[n - 1].answers(c.jobs[n - 1]));
}

/// Without a connection nothing is done; with one, the try is counted and the row is loaded.
pub proof fn law_beginning_of_a_job(c: Course)
    requires
        c.valid(),
        c.events.len() > 0,
    ensures
        c.actions[0] is Connect,
        c.events[0] is Connected ==> c.actions[1] is CountRetry,
        c.events[0] matches SendEvent::ConnectFailed(cause) ==> c.actions[1] == SendAction::Finish(
            Err(SmtpError::ConnectionFailure(cause)),
        ) && c.events.len() == 1,
        c.events.len() > 1 ==> c.actions[2] is LoadRow,
{
    assert(c.events[0].answers(c.jobs[0]));
    if c.events.len() > 1 {
        assert(c.events[1].answers(c.jobs[1]));
    }
}

/// The length that is reported is the one that the message was rendered to.
pub proof fn law_rendered_length_is_reported(c: Course, i: int)
    requires
        c.valid(),
        0 <= i < c.jobs.len(),
        c.jobs[i] is Sending || c.jobs[i] is Saving || c.jobs[i] is Completing,
    ensures
        exists|k: int|
            0 <= k < i && (#[trigger] c.events[k] matches SendEvent::Rendered { len } && match c.jobs[i] {
                SendJob::Sending { len: l, .. } => l == len,
                SendJob::Saving { len: l, .. } => l == len,
                SendJob::Completing { len: l, .. } => l == len,
                _ => false,
            }),
    decreases i,
{
    lemma_facts(c, i);
    lemma_facts(c, i - 1);
    assert(c.events[i - 1].answers(c.jobs[i - 1]));
    if !(c.jobs[i - 1] is Rendering) {
        law_rendered_length_is_reported(c, i - 1);
        let k = choose|k: int|
            0 <= k < i - 1 && (#[trigger] c.events[k] matches SendEvent::Rendered { len } && match c.jobs[i
                - 1] {
                SendJob::Sending { len: l, .. } => l == len,
                SendJob::Saving { len: l, .. } => l == len,
                SendJob::Completing { len: l, .. } => l == len,
                _ => false,
            });
        assert(c.events[k] is Rendered);
    }
}

} // verus!
