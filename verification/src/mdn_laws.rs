//! What holds of every way in which the sending of a read receipt can go.

use vstd::prelude::*;

use crate::mdn_job::{MdnAction, MdnEvent, MdnJob};
use crate::smtp::{Link, SmtpError};
use crate::text;

verus! {

/// A course of a job: its states and the actions that led to them, and between each two states
/// the event, with the state of the connection at that time.
pub struct MdnCourse {
    pub jobs: Seq<MdnJob>,
    pub actions: Seq<MdnAction>,
    pub events: Seq<MdnEvent>,
    pub links: Seq<Link>,
}

impl MdnCourse {
    /// The job begins as a new one, and each step is one that a job takes.
    pub open spec fn valid(self) -> bool {
        &&& self.jobs.len() == self.events.len() + 1
        &&& self.actions.len() == self.events.len() + 1
        &&& self.links.len() == self.events.len()
        &&& self.jobs[0] is Picking
        &&& self.actions[0] is Pick
        &&& forall|i: int| #![trigger self.events[i]]
            0 <= i < self.events.len() ==> self.events[i].answers(self.jobs[i])
                && crate::mdn_job::steps(
                self.jobs[i],
                self.links[i],
                self.events[i],
                self.jobs[i + 1],
                self.actions[i + 1],
            )
    }

    /// The message of the picked receipt.
    pub open spec fn picked(self) -> Option<Seq<char>> {
        if self.events.len() == 0 {
            None
        } else {
            match self.events[0] {
                MdnEvent::Picked(Some((mid, _))) => Some(mid@),
                _ => None,
            }
        }
    }
}

/// The messages whose receipts have left the queue after the first `n` events.
pub open spec fn deleted(c: MdnCourse, n: int) -> Seq<Seq<char>>
    decreases n,
{
    if n <= 0 {
        Seq::empty()
    } else {
        let before = deleted(c, n - 1);
        match c.actions[n - 1] {
            MdnAction::Delete(mids) if c.events[n - 1] is Deleted => before + text::texts(mids@),
            _ => before,
        }
    }
}

/// The messages for which a try is counted.
pub open spec fn counted(actions: Seq<MdnAction>) -> Seq<Seq<char>>
    decreases actions.len(),
{
    if actions.len() == 0 {
        Seq::empty()
    } else {
        let before = counted(actions.drop_last());
        match actions.last() {
            MdnAction::CountRetry(mid) => before.push(mid@),
            _ => before,
        }
    }
}

/// The messages that could be added to the receipt.
pub open spec fn added(events: Seq<MdnEvent>) -> Seq<Seq<char>>
    decreases events.len(),
{
    if events.len() == 0 {
        Seq::empty()
    } else {
        match events.last() {
            MdnEvent::Additional(mids) => text::texts(mids@),
            _ => added(events.drop_last()),
        }
    }
}

/// The messages of the receipt that a job sends.
pub open spec fn mids_of(job: MdnJob) -> Option<Seq<Seq<char>>> {
    match job {
        MdnJob::Composing { mids } => Some(text::texts(mids@)),
        MdnJob::Rendering { mids, .. } => Some(text::texts(mids@)),
        MdnJob::CheckingBcc { mids, .. } => Some(text::texts(mids@)),
        MdnJob::AddingSelf { mids, .. } => Some(text::texts(mids@)),
        MdnJob::Announcing { mids, .. } => Some(text::texts(mids@)),
        MdnJob::Sending { mids } => Some(text::texts(mids@)),
        _ => None,
    }
}

/// The single message of a job that has not looked for others yet.
pub open spec fn single_mid(job: MdnJob) -> Option<Seq<char>> {
    match job {
        MdnJob::Connecting { mid, .. } => Some(mid@),
        MdnJob::Counting { mid, .. } => Some(mid@),
        MdnJob::CheckingContact { mid, .. } => Some(mid@),
        MdnJob::Aggregating { mid, .. } => Some(mid@),
        _ => None,
    }
}

/// Whether an error makes a receipt leave the queue.
pub open spec fn is_final(e: SmtpError) -> bool {
    e is ContactBlocked || e is NoMdnFrom || e is MdnFailed
}

/// What is known of a course when it is in the state `i`.
pub open spec fn known(c: MdnCourse, i: int) -> bool {
    let gone = deleted(c, i);
    let tried = counted(c.actions.take(i + 1));
    match c.jobs[i] {
        MdnJob::Picking => i == 0 && gone.len() == 0 && tried.len() == 0,
        MdnJob::Connecting { .. } => gone.len() == 0 && tried.len() == 0,
        MdnJob::Completing { mid } => {
            &&& c.picked() == Some(mid@)
            &&& c.actions[i] matches MdnAction::Delete(mids)
            &&& text::texts(mids@) == seq![mid@] + added(c.events.take(i))
            &&& gone.len() == 0
            &&& tried == seq![mid@]
        },
        MdnJob::Removing(e) => {
            &&& is_final(e)
            &&& c.picked() is Some
            &&& c.actions[i] matches MdnAction::Delete(mids)
            &&& text::texts(mids@) == seq![c.picked()->0]
            &&& gone.len() == 0
            &&& tried == seq![c.picked()->0]
        },
        MdnJob::Done => c.actions[i] is Finish && match c.actions[i]->Finish_0 {
            Ok(true) => c.picked() is Some && gone == seq![c.picked()->0] + added(c.events.take(i))
                && tried == seq![c.picked()->0],
            Ok(false) => c.picked() is None && gone.len() == 0 && tried.len() == 0,
            Err(e) => c.picked() is Some && if e is MdnConnectionFailure {
                gone.len() == 0 && tried.len() == 0
            } else if is_final(e) {
                gone == seq![c.picked()->0] && tried == seq![c.picked()->0]
            } else {
                e is MdnRetry && gone.len() == 0 && tried == seq![c.picked()->0]
            },
        },
        _ => gone.len() == 0 && c.picked() is Some && tried == seq![c.picked()->0],
    }
}

pub(crate) proof fn lemma_first_mid(job: MdnJob)
    requires
        mids_of(job) matches Some(mids) && mids.len() > 0,
    ensures
        crate::mdn_job::mid_of(job) == Some(mids_of(job)->0[0]),
{
    match job {
        MdnJob::Composing { mids } => {
            assert(text::texts(mids@)[0] == mids@[0]@);
        },
        MdnJob::Rendering { mids, .. } => {
            assert(text::texts(mids@)[0] == mids@[0]@);
        },
        MdnJob::CheckingBcc { mids, .. } => {
            assert(text::texts(mids@)[0] == mids@[0]@);
        },
        MdnJob::AddingSelf { mids, .. } => {
            assert(text::texts(mids@)[0] == mids@[0]@);
        },
        MdnJob::Announcing { mids, .. } => {
            assert(text::texts(mids@)[0] == mids@[0]@);
        },
        MdnJob::Sending { mids } => {
            assert(text::texts(mids@)[0] == mids@[0]@);
        },
        _ => {},
    }
}

pub(crate) proof fn lemma_mdn(c: MdnCourse, i: int)
    requires
        c.valid(),
        0 <= i < c.jobs.len(),
    ensures
        known(c, i),
        c.actions[i] is Finish ==> c.jobs[i] is Done,
        i > 0 ==> !(c.jobs[i] is Picking),
        single_mid(c.jobs[i]) is Some ==> i > 0 && single_mid(c.jobs[i]) == c.picked(),
        mids_of(c.jobs[i]) matches Some(mids) ==> i > 0 && c.picked() is Some && mids == seq![
            c.picked()->0,
        ] + added(c.events.take(i)),
    decreases i,
{
    assert(c.actions.take(i + 1).last() == c.actions[i]);
    if i == 0 {
        assert(c.actions.take(1).drop_last() =~= Seq::empty());
        reveal_with_fuel(counted, 2);
    } else {
        lemma_mdn(c, i - 1);
        assert(c.events[i - 1].answers(c.jobs[i - 1]));
        assert(c.events[0].answers(c.jobs[0]));
        assert(c.actions.take(i + 1).drop_last() =~= c.actions.take(i));
        assert(c.events.take(i).drop_last() =~= c.events.take(i - 1));
        assert(c.events.take(i).last() == c.events[i - 1]);
        let gone = deleted(c, i - 1);
        let tried = counted(c.actions.take(i));
        if gone.len() == 0 {
            assert(gone =~= Seq::empty());
            if let MdnAction::Delete(mids) = c.actions[i - 1] {
                assert(gone + text::texts(mids@) =~= text::texts(mids@));
            }
        }
        if tried.len() == 0 {
            assert(tried =~= Seq::empty());
            if let MdnAction::CountRetry(mid) = c.actions[i] {
                assert(tried.push(mid@) =~= seq![mid@]);
            }
        }
        if let Some(mids) = mids_of(c.jobs[i - 1]) {
            assert(mids[0] == c.picked()->0);
            lemma_first_mid(c.jobs[i - 1]);
        }
    }
}

/// A receipt stays in the queue exactly if nothing was picked, the server could not be reached or
/// asked to try later. Otherwise it leaves the queue, so that an invalid one is not tried forever:
/// after an error alone, after a success with those that were sent along.
pub proof fn law_receipt_stays_only_to_be_retried(c: MdnCourse)
    requires
        c.valid(),
        c.actions.last() is Finish,
    ensures
        ({
            let gone = deleted(c, c.events.len() as int);
            match c.actions.last()->Finish_0 {
                Ok(true) => c.picked() is Some && gone == seq![c.picked()->0] + added(c.events),
                Ok(false) => c.picked() is None && gone.len() == 0,
                Err(e) => c.picked() is Some && if e is MdnConnectionFailure || e is MdnRetry {
                    gone.len() == 0
                } else {
                    gone == seq![c.picked()->0]
                },
            }
        }),
{
    let n = c.jobs.len() - 1;
    lemma_mdn(c, n);
    assert(c.actions.take(n + 1) =~= c.actions);
    assert(c.events.take(n) =~= c.events);
}

/// A try is counted once for the picked receipt, but not if the server could not be reached: that
/// is no failure of the receipt.
pub proof fn law_receipt_tries_are_counted_once(c: MdnCourse)
    requires
        c.valid(),
        c.actions.last() is Finish,
    ensures
        counted(c.actions) == match c.actions.last()->Finish_0 {
            Ok(true) => seq![c.picked()->0],
            Ok(false) => Seq::empty(),
            Err(e) => if e is MdnConnectionFailure {
                Seq::empty()
            } else {
                seq![c.picked()->0]
            },
        },
{
    let n = c.jobs.len() - 1;
    lemma_mdn(c, n);
    assert(c.actions.take(n + 1) =~= c.actions);
}

} // verus!
