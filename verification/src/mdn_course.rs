//! What the events of a receipt job lead to: whom the receipt goes to, and what becomes of it.

use vstd::prelude::*;

use crate::address;
use crate::delivery;
use crate::mdn_job;
use crate::mdn_job::{MdnAction, MdnEvent, MdnJob};
use crate::mdn_laws;
use crate::mdn_laws::MdnCourse;
use crate::reply::SendResult;
use crate::smtp::SmtpError;
use crate::text;

verus! {

/// The message of the receipt and the contact that wrote it.
pub open spec fn picked(c: MdnCourse) -> Option<(String, u32)> {
    if c.events.len() > 0 {
        match c.events[0] {
            MdnEvent::Picked(receipt) => receipt,
            _ => None,
        }
    } else {
        None
    }
}

/// What was composed.
pub open spec fn is_composed(
    c: MdnCourse,
    encrypted: bool,
    to_self: bool,
    recipients: Vec<String>,
) -> bool {
    c.events.len() > 5 && c.events[5] == (MdnEvent::Composed { encrypted, to_self, recipients })
}

/// Whether own addresses get a copy, if that was found out.
pub open spec fn told_bcc(c: MdnCourse) -> Option<bool> {
    if c.events.len() > 7 {
        match c.events[7] {
            MdnEvent::BccSelf(bcc_self) => Some(bcc_self),
            _ => None,
        }
    } else {
        None
    }
}

/// The own addresses, if they were asked for.
pub open spec fn own_addresses(c: MdnCourse) -> Option<Seq<Seq<char>>> {
    if c.events.len() > 8 {
        match c.events[8] {
            MdnEvent::SelfAddrs(addrs) => Some(text::texts(addrs@)),
            _ => None,
        }
    } else {
        None
    }
}

/// Whether a receipt is meant for an address: as a recipient, unless it is only for the own
/// devices, or as an own address that gets a copy. That is the one that is sent from and, if the
/// receipt is encrypted, every other one.
pub open spec fn is_meant_for(c: MdnCourse, a: Seq<char>) -> bool {
    let encrypted = c.events[5]->Composed_encrypted;
    let to_self = c.events[5]->Composed_to_self;
    let recipients = text::texts(c.events[5]->Composed_recipients@);
    ||| !to_self && recipients.contains(a)
    ||| told_bcc(c) == Some(true) && c.links[5].from == Some(a)
    ||| told_bcc(c) == Some(true) && encrypted && own_addresses(c) is Some
        && own_addresses(c)->0.contains(a)
}

spec fn named(c: MdnCourse) -> Seq<Seq<char>> {
    if c.events[5]->Composed_to_self {
        Seq::empty()
    } else {
        text::texts(c.events[5]->Composed_recipients@)
    }
}

spec fn copies(c: MdnCourse) -> Seq<Seq<char>> {
    if told_bcc(c) == Some(true) {
        delivery::self_recipients(
            match own_addresses(c) {
                Some(addrs) => addrs,
                None => Seq::empty(),
            },
            c.events[5]->Composed_encrypted,
            c.links[5].from->0,
        )
    } else {
        Seq::empty()
    }
}

spec fn facts(c: MdnCourse, i: int) -> bool {
    match c.jobs[i] {
        MdnJob::Picking => i == 0,
        MdnJob::Connecting { mid, contact_id } => i == 1 && picked(c) == Some((mid, contact_id))
            && c.actions[i] is Connect,
        MdnJob::Counting { mid, contact_id } => i == 2 && picked(c) == Some((mid, contact_id))
            && c.actions[i] == MdnAction::CountRetry(mid),
        MdnJob::CheckingContact { mid, contact_id } => i == 3 && picked(c) == Some(
            (mid, contact_id),
        ) && c.actions[i] == MdnAction::GetContact(contact_id),
        MdnJob::Aggregating { mid, contact_id } => {
            &&& i == 4
            &&& picked(c) == Some((mid, contact_id))
            &&& c.actions[i] == (MdnAction::FindAdditional { mid, contact_id })
            &&& c.events[3] == (MdnEvent::Contact { blocked: false })
        },
        MdnJob::Composing { mids } => {
            &&& i == 5
            &&& picked(c) is Some
            &&& c.events[3] == (MdnEvent::Contact { blocked: false })
            &&& c.events[4] is Additional
            &&& c.actions[i] == (MdnAction::Compose {
                mid: (picked(c)->0).0,
                contact_id: (picked(c)->0).1,
                additional: c.events[4]->Additional_0,
            })
        },
        MdnJob::Rendering { mids, encrypted, recipients, from } => {
            &&& i == 6
            &&& c.events[3] == (MdnEvent::Contact { blocked: false })
            &&& c.events[5] is Composed
            &&& encrypted == c.events[5]->Composed_encrypted
            &&& text::texts(recipients@) == named(c)
            &&& c.links[5].from == Some(from@)
            &&& c.actions[i] is Render
        },
        MdnJob::CheckingBcc { mids, encrypted, recipients, from } => {
            &&& i == 7
            &&& c.events[3] == (MdnEvent::Contact { blocked: false })
            &&& c.events[5] is Composed
            &&& encrypted == c.events[5]->Composed_encrypted
            &&& text::texts(recipients@) == named(c)
            &&& c.links[5].from == Some(from@)
            &&& c.actions[i] is GetBccSelf
        },
        MdnJob::AddingSelf { mids, recipients, from } => {
            &&& i == 8
            &&& c.events[3] == (MdnEvent::Contact { blocked: false })
            &&& c.events[5] is Composed
            &&& c.events[5]->Composed_encrypted
            &&& told_bcc(c) == Some(true)
            &&& text::texts(recipients@) == named(c)
            &&& c.links[5].from == Some(from@)
            &&& c.actions[i] is GetSelfAddrs
        },
        MdnJob::Announcing { mids, recipients } => {
            &&& i == 8 || i == 9
            &&& c.events[3] == (MdnEvent::Contact { blocked: false })
            &&& c.events[5] is Composed
            &&& told_bcc(c) is Some
            &&& i == 9 <==> c.events[5]->Composed_encrypted && told_bcc(c) == Some(true)
            &&& i == 9 ==> own_addresses(c) is Some
            &&& c.links[5].from is Some
            &&& i == 9 ==> text::texts(recipients@) == address::valid_addresses(
                named(c) + copies(c),
            )
            &&& i == 8 ==> text::texts(recipients@) == address::valid_addresses(
                named(c) + (if told_bcc(c) == Some(true) {
                    seq![c.links[5].from->0]
                } else {
                    Seq::empty()
                }),
            )
            &&& c.actions[i] is InsertTombstone
        },
        MdnJob::Sending { mids } => {
            &&& i == 9 || i == 10
            &&& c.events[3] == (MdnEvent::Contact { blocked: false })
            &&& c.events[5] is Composed
            &&& told_bcc(c) is Some
            &&& i == 10 <==> c.events[5]->Composed_encrypted && told_bcc(c) == Some(true)
            &&& i == 10 <==> own_addresses(c) is Some
            &&& c.links[5].from is Some
            &&& c.actions[i] matches MdnAction::Send(recipients)
            &&& text::texts(recipients@) == address::valid_addresses(named(c) + copies(c))
            &&& c.events[i - 1] is TombstoneInserted
        },
        MdnJob::Completing { mid } => i > 9 && c.actions[i] is Delete && (c.events[i - 1]
            == MdnEvent::Sent(SendResult::Success)),
        MdnJob::Removing(_) => i > 3 && c.actions[i] is Delete,
        MdnJob::Done => i > 0 && c.actions[i] is Finish,
    }
}

proof fn lemma_facts(c: MdnCourse, i: int)
    requires
        c.valid(),
        0 <= i < c.jobs.len(),
    ensures
        facts(c, i),
    decreases i,
{
    if i > 0 {
        lemma_facts(c, i - 1);
        assert(c.events[i - 1].answers(c.jobs[i - 1]));
        if let MdnJob::CheckingBcc { recipients, .. } = c.jobs[i - 1] {
            let none = Seq::<Seq<char>>::empty();
            assert(none.push(c.links[5].from->0) =~= seq![c.links[5].from->0]);
            assert(named(c) + none =~= named(c));
        }
        if let MdnJob::Announcing { recipients, .. } = c.jobs[i - 1] {
            if i == 9 {
                assert(own_addresses(c) is None);
                if told_bcc(c) == Some(true) {
                    assert(copies(c) =~= seq![c.links[5].from->0]);
                } else {
                    assert(copies(c) =~= Seq::<Seq<char>>::empty());
                }
            }
        }
    }
}

/// A receipt goes to exactly those that it is meant for and whose address is valid. For a copy of
/// an encrypted receipt the own addresses were asked for.
pub proof fn law_receipt_goes_to_whom_it_is_meant_for(c: MdnCourse, i: int, a: Seq<char>)
    requires
        c.valid(),
        0 <= i < c.actions.len(),
        c.actions[i] is Send,
    ensures
        i > 8,
        c.events[5] is Composed,
        told_bcc(c) is Some,
        told_bcc(c) == Some(true) && c.events[5]->Composed_encrypted ==> own_addresses(c) is Some,
        text::texts(c.actions[i]->Send_0@).contains(a) <==> is_meant_for(c, a)
            && address::valid_address(a),
{
    lemma_facts(c, i);
    let all = named(c) + copies(c);
    let encrypted = c.events[5]->Composed_encrypted;
    let addrs = match own_addresses(c) {
        Some(own) => own,
        None => Seq::empty(),
    };
    address::law_valid_addresses_are_kept(all, all, a);
    if told_bcc(c) == Some(true) {
        delivery::law_own_copies(addrs, Seq::empty(), encrypted, c.links[5].from->0, a);
    }
    if all.contains(a) {
        let k = all.index_of(a);
        if k < named(c).len() {
            assert(named(c)[k] == a);
        } else {
            assert(copies(c)[k - named(c).len()] == a);
        }
    }
    if named(c).contains(a) {
        assert(all[named(c).index_of(a)] == a);
    }
    if copies(c).contains(a) {
        assert(all[named(c).len() + copies(c).index_of(a)] == a);
    }
}

/// What is done concerns the receipt that was picked: its try is counted, its contact is looked
/// up, the receipts for the same contact are looked for, and it is composed with those.
pub proof fn law_picked_receipt_is_handled(c: MdnCourse, i: int)
    requires
        c.valid(),
        0 < i < c.actions.len(),
    ensures
        c.actions[i] matches MdnAction::CountRetry(mid) ==> picked(c) is Some && mid
            == (picked(c)->0).0,
        c.actions[i] matches MdnAction::GetContact(id) ==> picked(c) is Some && id
            == (picked(c)->0).1,
        c.actions[i] matches MdnAction::FindAdditional { mid, contact_id } ==> picked(c) == Some(
            (mid, contact_id),
        ),
        c.actions[i] matches MdnAction::Compose { mid, contact_id, additional } ==> picked(c)
            == Some((mid, contact_id)) && c.events[i - 1] == MdnEvent::Additional(additional),
        c.actions[i] matches MdnAction::Render { from } ==> c.links[i - 1].from == Some(from@),
        c.actions[i] is Send ==> c.events[i - 1] is TombstoneInserted,
{
    lemma_facts(c, i);
    lemma_facts(c, i - 1);
    assert(c.events[i - 1].answers(c.jobs[i - 1]));
}

/// If there is no receipt, the job ends at once and says so; if there is one, a connection is
/// made.
pub proof fn law_beginning_of_a_receipt(c: MdnCourse)
    requires
        c.valid(),
        c.events.len() > 0,
    ensures
        picked(c) is None ==> c.actions[1] == MdnAction::Finish(Ok(false)) && c.events.len() == 1,
        picked(c) is Some ==> c.actions[1] is Connect,
        c.events.len() > 1 && c.events[1] is Connected ==> c.actions[2] is CountRetry,
        c.events.len() > 1 && c.events[1] is ConnectFailed ==> c.actions[2] == MdnAction::Finish(
            Err(SmtpError::MdnConnectionFailure(c.events[1]->ConnectFailed_0)),
        ),
{
    assert(c.events[0].answers(c.jobs[0]));
    if c.events.len() > 1 {
        assert(c.events[1].answers(c.jobs[1]));
    }
}

/// A receipt for a blocked contact is never sent: it leaves the queue alone. For a contact that is
/// not blocked, the job goes on.
pub proof fn law_blocked_contact_gets_no_receipt(c: MdnCourse, i: int)
    requires
        c.valid(),
        c.events.len() > 3,
        0 <= i < c.actions.len(),
    ensures
        c.events[3] == (MdnEvent::Contact { blocked: true }) ==> {
            &&& !(c.actions[i] is Send)
            &&& c.actions[4] matches MdnAction::Delete(mids)
            &&& text::texts(mids@) == seq![(picked(c)->0).0@]
            &&& i > 3 && c.actions[i] is Finish ==> c.actions[i] == MdnAction::Finish(
                Err(SmtpError::ContactBlocked),
            )
        },
        c.events[3] == (MdnEvent::Contact { blocked: false }) ==> c.actions[4] is FindAdditional,
{
    lemma_facts(c, 3);
    lemma_facts(c, i);
    assert(c.events[3].answers(c.jobs[3]));
    if c.events[3] == (MdnEvent::Contact { blocked: true }) {
        assert(c.jobs[4] == MdnJob::Removing(SmtpError::ContactBlocked));
        if i > 4 {
            lemma_after_removing(c, 4, SmtpError::ContactBlocked, i);
        }
        if i > 3 && c.actions[i] is Finish {
            assert(i > 4);
        }
    }
}

proof fn lemma_after_removing(c: MdnCourse, k: int, error: SmtpError, i: int)
    requires
        c.valid(),
        0 <= k < i < c.jobs.len(),
        c.jobs[k] == MdnJob::Removing(error),
    ensures
        i == k + 1,
        i == c.jobs.len() - 1,
        c.actions[i] == MdnAction::Finish(Err(error)),
{
    assert(c.events[k].answers(c.jobs[k]));
    assert(c.jobs[k + 1] is Done);
    if k + 1 < c.events.len() {
        assert(c.events[k + 1].answers(c.jobs[k + 1]));
    }
}

/// If the server took the receipt, all messages of it leave the queue. If it asks to try later,
/// the job ends and nothing leaves the queue. If it refuses the receipt, or anything else goes
/// wrong, only the picked message leaves the queue, and the job ends with the reason.
pub proof fn law_outcome_of_a_receipt(c: MdnCourse, i: int)
    requires
        c.valid(),
        0 <= i < c.events.len(),
        c.events[i] is Sent || c.events[i] is Failed,
    ensures
        picked(c) is Some,
        c.events[i] == MdnEvent::Sent(SendResult::Success) ==> {
            &&& c.actions[i + 1] matches MdnAction::Delete(mids)
            &&& c.events[4] is Additional
            &&& text::texts(mids@) == seq![(picked(c)->0).0@] + text::texts(
                c.events[4]->Additional_0@,
            )
        },
        c.events[i] == MdnEvent::Sent(SendResult::Retry) ==> c.actions[i + 1] == MdnAction::Finish(
            Err(SmtpError::MdnRetry),
        ),
        c.events[i] matches MdnEvent::Sent(SendResult::Failure(reason)) ==> {
            &&& c.actions[i + 1] matches MdnAction::Delete(mids)
            &&& text::texts(mids@) == seq![(picked(c)->0).0@]
            &&& i + 2 < c.actions.len() ==> c.actions[i + 2] == MdnAction::Finish(
                Err(SmtpError::MdnFailed(reason)),
            )
        },
        c.events[i] matches MdnEvent::Failed(reason) ==> {
            &&& c.actions[i + 1] matches MdnAction::Delete(mids)
            &&& text::texts(mids@) == seq![(picked(c)->0).0@]
            &&& i + 2 < c.actions.len() ==> c.actions[i + 2] == MdnAction::Finish(
                Err(SmtpError::MdnFailed(reason)),
            )
        },
{
    lemma_facts(c, i);
    mdn_laws::lemma_mdn(c, i);
    lemma_additional(c, i);
    assert(c.events[i].answers(c.jobs[i]));
    assert(c.picked() == Some((picked(c)->0).0@));
    if let Some(mids) = mdn_laws::mids_of(c.jobs[i]) {
        assert(mids[0] == c.picked()->0);
        mdn_laws::lemma_first_mid(c.jobs[i]);
    }
    if i + 2 < c.actions.len() {
        if let MdnJob::Removing(error) = c.jobs[i + 1] {
            lemma_after_removing(c, i + 1, error, i + 2);
        }
    }
}

proof fn lemma_additional(c: MdnCourse, i: int)
    requires
        c.valid(),
        0 <= i < c.jobs.len(),
    ensures
        mdn_laws::mids_of(c.jobs[i]) is Some ==> i > 4 && c.events[4] is Additional
            && mdn_laws::added(c.events.take(i)) == text::texts(c.events[4]->Additional_0@),
    decreases i,
{
    if i > 0 {
        lemma_facts(c, i);
        lemma_facts(c, i - 1);
        lemma_additional(c, i - 1);
        assert(c.events[i - 1].answers(c.jobs[i - 1]));
        assert(c.events.take(i).drop_last() =~= c.events.take(i - 1));
        assert(c.events.take(i).last() == c.events[i - 1]);
    }
}

/// A job says that there may be more receipts exactly if one was sent and left the queue, and that
/// there are none exactly if none was picked. It ends with an error only for the reason that the
/// error names.
pub proof fn law_end_of_a_receipt(c: MdnCourse)
    requires
        c.valid(),
        c.actions.last() is Finish,
    ensures
        c.events.len() > 0,
        match c.actions.last()->Finish_0 {
            Ok(false) => picked(c) is None,
            Ok(true) => c.events.len() > 1 && c.events.last() is Deleted
                && c.events[c.events.len() - 2] == MdnEvent::Sent(SendResult::Success),
            Err(SmtpError::MdnConnectionFailure(cause)) => c.events.last()
                == MdnEvent::ConnectFailed(cause),
            Err(SmtpError::MdnRetry) => c.events.last() == MdnEvent::Sent(SendResult::Retry),
            Err(SmtpError::ContactBlocked) => c.events.len() > 1 && c.events[c.events.len() - 2]
                == (MdnEvent::Contact { blocked: true }),
            Err(SmtpError::NoMdnFrom) => c.events.len() > 1 && c.links[c.links.len()
                - 2].from is None,
            Err(SmtpError::MdnFailed(reason)) => c.events.len() > 1 && (c.events[c.events.len() - 2]
                == MdnEvent::Failed(reason) || c.events[c.events.len() - 2] == MdnEvent::Sent(
                SendResult::Failure(reason),
            )),
            Err(_) => false,
        },
{
    let n = c.jobs.len() - 1;
    lemma_facts(c, n);
    lemma_facts(c, n - 1);
    assert(c.events[n - 1].answers(c.jobs[n - 1]));
    if n > 1 {
        lemma_facts(c, n - 2);
        assert(c.events[n - 2].answers(c.jobs[n - 2]));
    }
}

/// The recipients of a receipt come before the own addresses, and the address that is sent from
/// comes last if it gets a copy and is valid.
pub proof fn law_own_addresses_come_last_in_a_receipt(
    recipients: Seq<Seq<char>>,
    bcc_self: bool,
    self_addrs: Seq<Seq<char>>,
    encrypted: bool,
    from: Seq<char>,
    a: Seq<char>,
)
    ensures
        ({
            let all = mdn_job::receipt_recipients(recipients, bcc_self, self_addrs, encrypted, from);
            let first = address::valid_addresses(recipients);
            &&& first.is_prefix_of(all)
            &&& !bcc_self ==> all == first
            &&& bcc_self && address::valid_address(from) ==> all.len() > 0 && all.last() == from
            &&& all.contains(a) <==> address::valid_address(a) && (recipients.contains(a) || (
            bcc_self && (a == from || (encrypted && self_addrs.contains(a)))))
        }),
{
    let all = mdn_job::receipt_recipients(recipients, bcc_self, self_addrs, encrypted, from);
    let first = address::valid_addresses(recipients);
    if bcc_self {
        let own = delivery::self_recipients(self_addrs, encrypted, from);
        let rest = address::valid_addresses(own);
        assert(all == first + rest) by {
            address::law_valid_addresses_are_kept(recipients, own, a);
        }
        lemma_concat(first, rest, a);
        if address::valid_address(from) {
            lemma_valid_last(own.drop_last(), from);
        }
        delivery::law_own_copies(self_addrs, Seq::empty(), encrypted, from, a);
        assert(own =~= own.drop_last() + seq![from]);
        address::law_valid_addresses_are_kept(own, own, a);
        address::law_valid_addresses_are_kept(recipients, own, a);
    } else {
        address::law_valid_addresses_are_kept(recipients, recipients, a);
        lemma_concat(first, Seq::empty(), a);
        assert(first + Seq::<Seq<char>>::empty() =~= first);
    }
}

proof fn lemma_concat(first: Seq<Seq<char>>, rest: Seq<Seq<char>>, a: Seq<char>)
    ensures
        first.is_prefix_of(first + rest),
        (first + rest).contains(a) <==> first.contains(a) || rest.contains(a),
{
    let all = first + rest;
    assert(all.subrange(0, first.len() as int) =~= first);
    if all.contains(a) {
        let k = all.index_of(a);
        if k < first.len() {
            assert(first[k] == a);
        } else {
            assert(rest[k - first.len()] == a);
        }
    }
    if first.contains(a) {
        assert(all[first.index_of(a)] == a);
    }
    if rest.contains(a) {
        assert(all[first.len() + rest.index_of(a)] == a);
    }
}

proof fn lemma_valid_last(list: Seq<Seq<char>>, from: Seq<char>)
    requires
        address::valid_address(from),
    ensures
        address::valid_addresses(list + seq![from]).len() > 0,
        address::valid_addresses(list + seq![from]).last() == from,
{
    address::law_valid_addresses_are_kept(list, seq![from], from);
}

} // verus!
