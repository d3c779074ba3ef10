//! What holds of every way in which the sending of a queued message can go.

use vstd::prelude::*;

use crate::delivery::Delivery;
use crate::send_job::{SendAction, SendEvent, SendJob};
use crate::smtp::{Link, SmtpError};
use crate::text;

verus! {

/// A course of a job: its states and the actions that led to them, and between each two states
/// the event, with the state of the connection at that time.
pub struct Course {
    pub jobs: Seq<SendJob>,
    pub actions: Seq<SendAction>,
    pub events: Seq<SendEvent>,
    pub links: Seq<Link>,
}

impl Course {
    /// The job begins as a new one, and each step is one that a job takes.
    pub open spec fn valid(self) -> bool {
        &&& self.jobs.len() == self.events.len() + 1
        &&& self.actions.len() == self.events.len() + 1
        &&& self.links.len() == self.events.len()
        &&& self.jobs[0] is Connecting
        &&& self.actions[0] is Connect
        &&& forall|i: int| 0 <= i < self.jobs.len() ==> (#[trigger] self.jobs[i]).wf()
        &&& forall|i: int| #![trigger self.events[i]]
            0 <= i < self.events.len() ==> self.events[i].answers(self.jobs[i])
                && crate::send_job::steps(
                self.jobs[i],
                self.links[i],
                self.events[i],
                self.jobs[i + 1],
                self.actions[i + 1],
            )
    }

    /// The actions up to the state `i`.
    pub open spec fn actions_until(self, i: int) -> Seq<SendAction> {
        self.actions.take(i + 1)
    }
}

/// How often the row is deleted.
pub open spec fn deletions(actions: Seq<SendAction>) -> nat
    decreases actions.len(),
{
    if actions.len() == 0 {
        0
    } else {
        deletions(actions.drop_last()) + if actions.last() is DeleteRow {
            1nat
        } else {
            0nat
        }
    }
}

/// How often a try is counted.
pub open spec fn counted_tries(actions: Seq<SendAction>) -> nat
    decreases actions.len(),
{
    if actions.len() == 0 {
        0
    } else {
        counted_tries(actions.drop_last()) + if actions.last() is CountRetry {
            1nat
        } else {
            0nat
        }
    }
}

/// The addresses that the message is handed to the server for, in order.
pub open spec fn addressed(actions: Seq<SendAction>) -> Seq<Seq<char>>
    decreases actions.len(),
{
    if actions.len() == 0 {
        Seq::empty()
    } else {
        let before = addressed(actions.drop_last());
        match actions.last() {
            SendAction::SendChunk { chunk, .. } => before + text::texts(chunk@),
            _ => before,
        }
    }
}

/// Whether the row is deleted, or about to be, once a job is in a state.
pub open spec fn has_left_queue(job: SendJob) -> bool {
    job is Dropping || job is MarkingDropped || job is Completing || job is Reporting
        || job is Checking || job is MarkingDelivered || job is Rejecting
}

/// The delivery of a job that is sending.
pub open spec fn delivery_of(job: SendJob) -> Option<Delivery> {
    match job {
        SendJob::Rendering { delivery, .. } => Some(delivery),
        SendJob::Sending { delivery, .. } => Some(delivery),
        SendJob::Saving { delivery, .. } => Some(delivery),
        SendJob::Completing { delivery, .. } => Some(delivery),
        _ => None,
    }
}

/// Whether a job is in a state before anything is sent.
pub open spec fn is_preparing(job: SendJob) -> bool {
    job is Connecting || job is Counting || job is Loading || job is Dropping
        || job is MarkingDropped || job is AddingSelf || job is Preparing || job is Limiting
}

proof fn lemma_queue(c: Course, i: int)
    requires
        c.valid(),
        0 <= i < c.jobs.len(),
    ensures
        !(c.jobs[i] is Done) ==> deletions(c.actions_until(i)) == if has_left_queue(c.jobs[i]) {
            1nat
        } else {
            0nat
        },
        c.jobs[i] is Done ==> {
            &&& c.actions[i] is Finish
            &&& match c.actions[i]->Finish_0 {
                Ok(_) => deletions(c.actions_until(i)) == 1 || (i > 0 && c.events[i - 1]
                    == SendEvent::Loaded(None) && deletions(c.actions_until(i)) == 0),
                Err(SmtpError::Refused(_)) => deletions(c.actions_until(i)) == 1,
                Err(_) => deletions(c.actions_until(i)) == 0,
            }
        },
        c.actions[i] is Finish <==> c.jobs[i] is Done,
    decreases i,
{
    if i == 0 {
        assert(c.actions_until(0).drop_last() =~= Seq::empty());
        reveal_with_fuel(deletions, 2);
    } else {
        lemma_queue(c, i - 1);
        assert(c.events[i - 1].answers(c.jobs[i - 1]));
        assert(c.actions_until(i).drop_last() =~= c.actions_until(i - 1));
        assert(c.actions_until(i).last() == c.actions[i]);
    }
}

/// A message leaves the queue at most once, and exactly if the job ends with everything being
/// well or with a refusal. In particular it stays there if it is to be sent later, or if it could
/// not be read and was not tried too often.
pub proof fn law_message_stays_unless_settled(c: Course)
    requires
        c.valid(),
        c.actions.last() is Finish,
    ensures
        deletions(c.actions) <= 1,
        c.actions.last() == SendAction::Finish(Err(SmtpError::Retry)) ==> deletions(c.actions) == 0,
        c.actions.last() matches SendAction::Finish(Err(SmtpError::Unreadable(_))) ==> deletions(
            c.actions,
        ) == 0,
        (deletions(c.actions) == 1) == match c.actions.last()->Finish_0 {
            Ok(_) => c.events.last() != SendEvent::Loaded(None),
            Err(e) => e is Refused,
        },
{
    let n = c.jobs.len() - 1;
    lemma_queue(c, n);
    assert(c.actions_until(n) =~= c.actions);
    if c.events.len() > 0 {
        lemma_queue(c, n - 1);
        assert(c.events[n - 1].answers(c.jobs[n - 1]));
    }
}

proof fn lemma_tries(c: Course, i: int)
    requires
        c.valid(),
        0 <= i < c.jobs.len(),
    ensures
        c.jobs[i] is Connecting ==> counted_tries(c.actions_until(i)) == 0,
        c.jobs[i] is Connecting <==> i == 0,
        !(c.jobs[i] is Connecting) && !(c.jobs[i] is Done) ==> counted_tries(c.actions_until(i))
            == 1,
        c.jobs[i] is Done ==> counted_tries(c.actions_until(i)) == if c.actions[i]
            matches SendAction::Finish(Err(SmtpError::ConnectionFailure(_))) {
            0nat
        } else {
            1nat
        },
    decreases i,
{
    if i == 0 {
        assert(c.actions_until(0).drop_last() =~= Seq::empty());
        reveal_with_fuel(counted_tries, 2);
    } else {
        lemma_tries(c, i - 1);
        assert(c.events[i - 1].answers(c.jobs[i - 1]));
        assert(c.actions_until(i).drop_last() =~= c.actions_until(i - 1));
        assert(c.actions_until(i).last() == c.actions[i]);
    }
}

/// A job counts one try, before it does anything else but connecting, and none if it cannot
/// connect. So a try that fails early, when the message is read from the queue, is counted too,
/// and being offline costs no try.
pub proof fn law_every_try_is_counted_once(c: Course, i: int)
    requires
        c.valid(),
        0 <= i < c.jobs.len(),
    ensures
        counted_tries(c.actions_until(i)) <= 1,
        !(c.actions[i] is Connect) && !(c.actions[i] matches SendAction::Finish(
            Err(SmtpError::ConnectionFailure(_)),
        )) ==> counted_tries(c.actions_until(i)) == 1,
{
    lemma_tries(c, i);
}

proof fn lemma_addressed(c: Course, i: int)
    requires
        c.valid(),
        0 <= i < c.jobs.len(),
    ensures
        is_preparing(c.jobs[i]) ==> addressed(c.actions_until(i)) == Seq::<Seq<char>>::empty(),
        delivery_of(c.jobs[i]) matches Some(d) ==> {
            &&& addressed(c.actions_until(i)) == d@.recipients.take(d@.done + d@.in_flight)
            &&& c.jobs[i] is Rendering ==> d@.done + d@.in_flight == 0
            &&& c.jobs[i] is Completing ==> d@.rest() == 0
        },
    decreases i,
{
    if i == 0 {
        assert(c.actions_until(0).drop_last() =~= Seq::empty());
        reveal_with_fuel(addressed, 2);
    } else {
        lemma_addressed(c, i - 1);
        assert(c.events[i - 1].answers(c.jobs[i - 1]));
        assert(c.actions_until(i).drop_last() =~= c.actions_until(i - 1));
        assert(c.actions_until(i).last() == c.actions[i]);
        assert(c.jobs[i].wf() && c.jobs[i - 1].wf());
        if let Some(d) = delivery_of(c.jobs[i]) {
            d.lemma_wf();
            if c.jobs[i] is Rendering {
                assert(d@.recipients.take(0) =~= Seq::<Seq<char>>::empty());
            }
            if c.jobs[i] is Sending {
                let b = delivery_of(c.jobs[i - 1])->0;
                b.lemma_wf();
                let from = b@.done + b@.in_flight;
                assert(d@.recipients.take(d@.done + d@.in_flight) =~= b@.recipients.take(from)
                    + d@.chunk());
            }
        }
    }
}

/// Whatever happens, the message is handed to the server for the pending recipients in the order
/// of their list, for each place in the list once; and when everything was sent, for the whole
/// list.
pub proof fn law_recipients_are_served_in_order(c: Course, i: int)
    requires
        c.valid(),
        0 <= i < c.jobs.len(),
        delivery_of(c.jobs[i]) is Some,
    ensures
        ({
            let progress = delivery_of(c.jobs[i])->0@;
            &&& addressed(c.actions_until(i)) == progress.recipients.take(
                progress.done + progress.in_flight,
            )
            &&& c.jobs[i] is Completing ==> addressed(c.actions_until(i)) == progress.recipients
        }),
{
    lemma_addressed(c, i);
    let d = delivery_of(c.jobs[i])->0;
    if c.jobs[i] is Completing {
        assert(d@.recipients.take(d@.recipients.len() as int) =~= d@.recipients);
    }
}

/// Whether an event tells of a message that was tried too often, be it that the message could be
/// read or not.
pub open spec fn tells_too_many_tries(event: SendEvent) -> bool {
    match event {
        SendEvent::Loaded(Some(entry)) => entry.retries > crate::send_job::MAX_RETRIES,
        SendEvent::Unreadable { retries, .. } => retries > crate::send_job::MAX_RETRIES,
        _ => false,
    }
}

/// A message that was tried too often is not sent again, but leaves the queue, even if it cannot
/// be read from there; and a job that comes to its end then has deleted its row and ends well, so
/// that it does not keep later messages from being sent.
pub proof fn law_tries_are_limited(c: Course, i: int)
    requires
        c.valid(),
        0 <= i < c.events.len(),
        tells_too_many_tries(c.events[i]),
    ensures
        c.actions[i + 1] is DeleteRow,
        forall|k: int| 0 <= k < c.actions.len() ==> !(#[trigger] c.actions[k] is SendChunk),
        c.actions.last() is Finish ==> c.actions.last() == SendAction::Finish(Ok(()))
            && deletions(c.actions) == 1,
{
    lemma_early(c, i);
    assert(c.jobs[i] is Loading) by {
        assert(c.events[i].answers(c.jobs[i]));
    }
    assert forall|k: int| 0 <= k < c.actions.len() implies !(#[trigger] c.actions[k] is SendChunk) by {
        if k <= i {
            lemma_early(c, k);
        } else {
            lemma_dropped(c, i, k);
        }
    }
    if c.actions.last() is Finish {
        lemma_dropped_end(c, i);
    }
}

/// A message that cannot be read and was not tried too often stays in the queue, and the job ends
/// with the reason why it cannot be read.
pub proof fn law_unreadable_message_stays_until_the_limit(c: Course, i: int)
    requires
        c.valid(),
        0 <= i < c.events.len(),
        c.events[i] is Unreadable,
        !tells_too_many_tries(c.events[i]),
    ensures
        i == c.events.len() - 1,
        c.actions.last() == SendAction::Finish(
            Err(SmtpError::Unreadable(c.events[i]->Unreadable_cause)),
        ),
        deletions(c.actions) == 0,
{
    assert(c.events[i].answers(c.jobs[i]));
    assert(c.jobs[i + 1] is Done);
    if i + 1 < c.events.len() {
        assert(c.events[i + 1].answers(c.jobs[i + 1]));
    }
    lemma_queue(c, i + 1);
    assert(c.actions_until(i + 1) =~= c.actions);
}

proof fn lemma_dropped_end(c: Course, i: int)
    requires
        c.valid(),
        0 <= i < c.events.len(),
        c.jobs[i] is Loading,
        tells_too_many_tries(c.events[i]),
        c.actions.last() is Finish,
    ensures
        c.actions.last() == SendAction::Finish(Ok(())),
        deletions(c.actions) == 1,
{
    let n = c.jobs.len() - 1;
    lemma_queue(c, n);
    assert(c.events[i].answers(c.jobs[i]));
    assert(c.actions[i + 1] is DeleteRow);
    assert(n > i + 1);
    lemma_dropped(c, i, n - 1);
    assert(c.events[n - 1].answers(c.jobs[n - 1]));
    assert(c.actions_until(n) =~= c.actions);
}

pub(crate) proof fn lemma_early(c: Course, i: int)
    requires
        c.valid(),
        0 <= i < c.jobs.len(),
    ensures
        i == 0 ==> c.jobs[i] is Connecting,
        i == 1 ==> c.jobs[i] is Counting || c.jobs[i] is Done,
        i == 2 ==> c.jobs[i] is Loading,
        c.jobs[i] is Connecting ==> i == 0,
        c.jobs[i] is Counting ==> i == 1,
        c.jobs[i] is Loading ==> i == 2,
        i <= 2 ==> !(c.actions[i] is SendChunk),
    decreases i,
{
    if i > 0 {
        lemma_early(c, i - 1);
        assert(c.events[i - 1].answers(c.jobs[i - 1]));
    }
}

proof fn lemma_dropped(c: Course, i: int, k: int)
    requires
        c.valid(),
        0 <= i < c.events.len(),
        c.jobs[i] is Loading,
        tells_too_many_tries(c.events[i]),
        i < k < c.jobs.len(),
    ensures
        c.jobs[k] is Dropping || c.jobs[k] is MarkingDropped || c.jobs[k] is Done,
        !(c.actions[k] is SendChunk),
    decreases k,
{
    assert(c.events[k - 1].answers(c.jobs[k - 1]));
    if k > i + 1 {
        lemma_dropped(c, i, k - 1);
    }
}

} // verus!
