//! Sending a read receipt (MDN), step by step.
//!
//! As with messages, each step takes what came of the last action and says what is to be done
//! next.

use vstd::prelude::*;

use crate::address;
use crate::delivery;
use crate::reply::SendResult;
use crate::smtp::{Link, Smtp, SmtpError};
use crate::text;

verus! {

/// What came of an action.
pub enum MdnEvent {
    /// The receipt to send, if there is one.
    Picked(Option<(String, u32)>),
    /// There is a connection.
    Connected,
    /// There is none, for the given reason.
    ConnectFailed(String),
    /// The try was counted.
    Counted,
    /// Whether the contact that the receipt is for is blocked.
    Contact { blocked: bool },
    /// Messages whose receipts can be sent along.
    Additional(Vec<String>),
    /// The receipt was composed. `to_self` tells that it is only for the other own devices.
    Composed { encrypted: bool, to_self: bool, recipients: Vec<String> },
    /// The receipt was rendered.
    Rendered,
    /// Whether own addresses get a copy.
    BccSelf(bool),
    /// The own addresses.
    SelfAddrs(Vec<String>),
    /// The receipt will be recognized when it comes back.
    TombstoneInserted,
    /// What became of the receipt.
    Sent(SendResult),
    /// The rows were deleted.
    Deleted,
    /// The action failed, for the given reason.
    Failed(String),
}

/// What is to be done.
pub enum MdnAction {
    /// Drop what was tried too often from the queue, and pick the receipt to send.
    Pick,
    /// Connect to the server.
    Connect,
    /// Count the try for a message.
    CountRetry(String),
    /// Look the contact up.
    GetContact(u32),
    /// Find the messages whose receipts can be sent along.
    FindAdditional { mid: String, contact_id: u32 },
    /// Compose a receipt for some messages.
    Compose { mid: String, contact_id: u32, additional: Vec<String> },
    /// Render the receipt with the address that it is sent from.
    Render { from: String },
    /// Find out whether own addresses get a copy.
    GetBccSelf,
    /// Find out the own addresses.
    GetSelfAddrs,
    /// Make sure that the receipt will be recognized when it comes back.
    InsertTombstone,
    /// Send the rendered receipt.
    Send(Vec<String>),
    /// Delete the rows of some messages.
    Delete(Vec<String>),
    /// Nothing more. Whether there may be more receipts to send, or an error.
    Finish(Result<bool, SmtpError>),
}

/// How far a job is.
pub enum MdnJob {
    Picking,
    Connecting { mid: String, contact_id: u32 },
    Counting { mid: String, contact_id: u32 },
    CheckingContact { mid: String, contact_id: u32 },
    Aggregating { mid: String, contact_id: u32 },
    /// `mids` are the messages of the receipt, the picked one first.
    Composing { mids: Vec<String> },
    Rendering { mids: Vec<String>, encrypted: bool, recipients: Vec<String>, from: String },
    CheckingBcc { mids: Vec<String>, encrypted: bool, recipients: Vec<String>, from: String },
    AddingSelf { mids: Vec<String>, recipients: Vec<String>, from: String },
    Announcing { mids: Vec<String>, recipients: Vec<String> },
    Sending { mids: Vec<String> },
    /// The receipt was sent and leaves the queue.
    Completing { mid: String },
    /// The receipt cannot be sent and leaves the queue.
    Removing(SmtpError),
    Done,
}

/// The recipients of a receipt.
pub open spec fn receipt_recipients(
    recipients: Seq<Seq<char>>,
    bcc_self: bool,
    self_addrs: Seq<Seq<char>>,
    encrypted: bool,
    from: Seq<char>,
) -> Seq<Seq<char>> {
    address::valid_addresses(
        if bcc_self {
            recipients + delivery::self_recipients(self_addrs, encrypted, from)
        } else {
            recipients
        },
    )
}

/// The message whose receipt a job sends, as long as an error makes it leave the queue.
pub open spec fn mid_of(job: MdnJob) -> Option<Seq<char>> {
    match job {
        MdnJob::CheckingContact { mid, .. } => Some(mid@),
        MdnJob::Aggregating { mid, .. } => Some(mid@),
        MdnJob::Composing { mids } => Some(mids@[0]@),
        MdnJob::Rendering { mids, .. } => Some(mids@[0]@),
        MdnJob::CheckingBcc { mids, .. } => Some(mids@[0]@),
        MdnJob::AddingSelf { mids, .. } => Some(mids@[0]@),
        MdnJob::Announcing { mids, .. } => Some(mids@[0]@),
        MdnJob::Sending { mids } => Some(mids@[0]@),
        MdnJob::Completing { mid } => Some(mid@),
        _ => None,
    }
}

impl MdnEvent {
    /// Whether the event answers the action that a job waits for.
    pub open spec fn answers(&self, job: MdnJob) -> bool {
        ||| self is Failed && mid_of(job) is Some
        ||| match job {
            MdnJob::Picking => self is Picked,
            MdnJob::Connecting { .. } => self is Connected || self is ConnectFailed,
            MdnJob::Counting { .. } => self is Counted,
            MdnJob::CheckingContact { .. } => self is Contact,
            MdnJob::Aggregating { .. } => self is Additional,
            MdnJob::Composing { .. } => self is Composed,
            MdnJob::Rendering { .. } => self is Rendered,
            MdnJob::CheckingBcc { .. } => self is BccSelf,
            MdnJob::AddingSelf { .. } => self is SelfAddrs,
            MdnJob::Announcing { .. } => self is TombstoneInserted,
            MdnJob::Sending { .. } => self is Sent,
            MdnJob::Completing { .. } => self is Deleted,
            MdnJob::Removing(_) => self is Deleted,
            MdnJob::Done => false,
        }
    }
}

/// The receipt leaves the queue because of an error.
pub open spec fn removes(
    mid: Seq<char>,
    error: SmtpError,
    after: MdnJob,
    action: MdnAction,
) -> bool {
    &&& after == MdnJob::Removing(error)
    &&& action matches MdnAction::Delete(mids)
    &&& text::texts(mids@) == seq![mid]
}

/// The job goes on with the recipients.
pub open spec fn announces(
    mids: Vec<String>,
    recipients: Seq<Seq<char>>,
    after: MdnJob,
    action: MdnAction,
) -> bool {
    &&& after matches MdnJob::Announcing { mids: m, recipients: r }
    &&& m == mids
    &&& text::texts(r@) == recipients
    &&& action is InsertTombstone
}

/// What a job does next.
pub open spec fn steps(
    before: MdnJob,
    link: Link,
    event: MdnEvent,
    after: MdnJob,
    action: MdnAction,
) -> bool {
    match (before, event) {
        (MdnJob::Picking, MdnEvent::Picked(None)) => after is Done && action == MdnAction::Finish(
            Ok(false),
        ),
        (MdnJob::Picking, MdnEvent::Picked(Some((mid, contact_id)))) => after == (
        MdnJob::Connecting { mid, contact_id }) && action is Connect,
        (MdnJob::Connecting { mid, contact_id }, MdnEvent::Connected) => {
            &&& after == (MdnJob::Counting { mid, contact_id })
            &&& action == MdnAction::CountRetry(mid)
        },
        (MdnJob::Connecting { .. }, MdnEvent::ConnectFailed(cause)) => after is Done && action
            == MdnAction::Finish(Err(SmtpError::MdnConnectionFailure(cause))),
        (MdnJob::Counting { mid, contact_id }, MdnEvent::Counted) => after == (
        MdnJob::CheckingContact { mid, contact_id }) && action == MdnAction::GetContact(contact_id),
        (MdnJob::CheckingContact { mid, contact_id }, MdnEvent::Contact { blocked }) => if blocked {
            removes(mid@, SmtpError::ContactBlocked, after, action)
        } else {
            &&& after == (MdnJob::Aggregating { mid, contact_id })
            &&& action == (MdnAction::FindAdditional { mid, contact_id })
        },
        (MdnJob::Aggregating { mid, contact_id }, MdnEvent::Additional(additional)) => {
            &&& after matches MdnJob::Composing { mids }
            &&& text::texts(mids@) == seq![mid@] + text::texts(additional@)
            &&& action == (MdnAction::Compose { mid, contact_id, additional })
        },
        (
            MdnJob::Composing { mids },
            MdnEvent::Composed { encrypted, to_self, recipients },
        ) => match link.from {
            None => removes(mids@[0]@, SmtpError::NoMdnFrom, after, action),
            Some(from) => {
                &&& after matches MdnJob::Rendering {
                    mids: m,
                    encrypted: e,
                    recipients: r,
                    from: f,
                }
                &&& m == mids
                &&& e == encrypted
                &&& text::texts(r@) == if to_self {
                    Seq::empty()
                } else {
                    text::texts(recipients@)
                }
                &&& f@ == from
                &&& action matches MdnAction::Render { from: asked }
                &&& asked@ == from
            },
        },
        (
            MdnJob::Rendering { mids, encrypted, recipients, from },
            MdnEvent::Rendered,
        ) => after == (MdnJob::CheckingBcc { mids, encrypted, recipients, from })
            && action is GetBccSelf,
        (
            MdnJob::CheckingBcc { mids, encrypted, recipients, from },
            MdnEvent::BccSelf(bcc_self),
        ) => if bcc_self && encrypted {
            &&& after == (MdnJob::AddingSelf { mids, recipients, from })
            &&& action is GetSelfAddrs
        } else {
            announces(
                mids,
                receipt_recipients(
                    text::texts(recipients@),
                    bcc_self,
                    Seq::empty(),
                    encrypted,
                    from@,
                ),
                after,
                action,
            )
        },
        (
            MdnJob::AddingSelf { mids, recipients, from },
            MdnEvent::SelfAddrs(addrs),
        ) => announces(
            mids,
            receipt_recipients(
                text::texts(recipients@),
                true,
                text::texts(addrs@),
                true,
                from@,
            ),
            after,
            action,
        ),
        (MdnJob::Announcing { mids, recipients }, MdnEvent::TombstoneInserted) => after == (
        MdnJob::Sending { mids }) && action == MdnAction::Send(recipients),
        (MdnJob::Sending { mids }, MdnEvent::Sent(result)) => match result {
            SendResult::Success => {
                &&& after matches MdnJob::Completing { mid }
                &&& mid@ == mids@[0]@
                &&& action == MdnAction::Delete(mids)
            },
            SendResult::Retry => after is Done && action == MdnAction::Finish(
                Err(SmtpError::MdnRetry),
            ),
            SendResult::Failure(reason) => removes(
                mids@[0]@,
                SmtpError::MdnFailed(reason),
                after,
                action,
            ),
        },
        (MdnJob::Completing { .. }, MdnEvent::Deleted) => after is Done && action
            == MdnAction::Finish(Ok(true)),
        (MdnJob::Removing(error), MdnEvent::Deleted) => after is Done && action
            == MdnAction::Finish(Err(error)),
        (job, MdnEvent::Failed(reason)) => mid_of(job) matches Some(mid) && removes(
            mid,
            SmtpError::MdnFailed(reason),
            after,
            action,
        ),
        _ => false,
    }
}

fn one(mid: String) -> (r: Vec<String>)
    ensures
        text::texts(r@) == seq![mid@],
{
    let mut r: Vec<String> = Vec::new();
    r.push(mid);
    assert(text::texts(r@) =~= seq![mid@]);
    r
}

fn removal(mid: String, error: SmtpError) -> (r: (MdnJob, MdnAction))
    ensures
        removes(mid@, error, r.0, r.1),
        r.0.wf(),
{
    (MdnJob::Removing(error), MdnAction::Delete(one(mid)))
}

impl MdnJob {
    /// The messages of a receipt are not none.
    pub open spec fn wf(&self) -> bool {
        match self {
            MdnJob::Composing { mids } => mids@.len() > 0,
            MdnJob::Rendering { mids, .. } => mids@.len() > 0,
            MdnJob::CheckingBcc { mids, .. } => mids@.len() > 0,
            MdnJob::AddingSelf { mids, .. } => mids@.len() > 0,
            MdnJob::Announcing { mids, .. } => mids@.len() > 0,
            MdnJob::Sending { mids } => mids@.len() > 0,
            _ => true,
        }
    }

    /// A new job, which begins with picking a receipt.
    pub fn new() -> (r: (MdnJob, MdnAction))
        ensures
            r.0 is Picking,
            r.1 is Pick,
    {
        (MdnJob::Picking, MdnAction::Pick)
    }

    fn fail(self, reason: String) -> (r: (MdnJob, MdnAction))
        requires
            self.wf(),
            mid_of(self) is Some,
        ensures
            r.0.wf(),
            removes(mid_of(self)->0, SmtpError::MdnFailed(reason), r.0, r.1),
    {
        let error = SmtpError::MdnFailed(reason);
        match self {
            MdnJob::CheckingContact { mid, .. } => removal(mid, error),
            MdnJob::Aggregating { mid, .. } => removal(mid, error),
            MdnJob::Composing { mids } => removal(mids[0].clone(), error),
            MdnJob::Rendering { mids, .. } => removal(mids[0].clone(), error),
            MdnJob::CheckingBcc { mids, .. } => removal(mids[0].clone(), error),
            MdnJob::AddingSelf { mids, .. } => removal(mids[0].clone(), error),
            MdnJob::Announcing { mids, .. } => removal(mids[0].clone(), error),
            MdnJob::Sending { mids } => removal(mids[0].clone(), error),
            MdnJob::Completing { mid } => removal(mid, error),
            _ => (MdnJob::Done, MdnAction::Finish(Err(error))),
        }
    }

    fn announce(
        mids: Vec<String>,
        recipients: Vec<String>,
        bcc_self: bool,
        self_addrs: &Vec<String>,
        encrypted: bool,
        from: String,
    ) -> (r: (MdnJob, MdnAction))
        requires
            mids@.len() > 0,
        ensures
            r.0.wf(),
            announces(
                mids,
                receipt_recipients(
                    text::texts(recipients@),
                    bcc_self,
                    text::texts(self_addrs@),
                    encrypted,
                    from@,
                ),
                r.0,
                r.1,
            ),
    {
        let mut recipients = recipients;
        if bcc_self {
            delivery::add_self_recipients(&mut recipients, encrypted, self_addrs, from);
        }
        let recipients = address::keep_valid(&recipients);
        (MdnJob::Announcing { mids, recipients }, MdnAction::InsertTombstone)
    }

    /// Takes what came of the last action, and says what is to be done next.
    pub fn step(self, smtp: &mut Smtp, event: MdnEvent) -> (r: (MdnJob, MdnAction))
        requires
            self.wf(),
            event.answers(self),
        ensures
            r.0.wf(),
            steps(self, old(smtp)@, event, r.0, r.1),
            match event {
                MdnEvent::ConnectFailed(cause) => final(smtp)@ == (Link {
                    last_send_error: Some(SmtpError::MdnConnectionFailure(cause).message()),
                    ..old(smtp)@
                }),
                _ => *final(smtp) == *old(smtp),
            },
    {
        match (self, event) {
            (MdnJob::Picking, MdnEvent::Picked(None)) => (
                MdnJob::Done,
                MdnAction::Finish(Ok(false)),
            ),
            (MdnJob::Picking, MdnEvent::Picked(Some((mid, contact_id)))) => (
                MdnJob::Connecting { mid, contact_id },
                MdnAction::Connect,
            ),
            (MdnJob::Connecting { mid, contact_id }, MdnEvent::Connected) => {
                let counted = mid.clone();
                (MdnJob::Counting { mid, contact_id }, MdnAction::CountRetry(counted))
            },
            (MdnJob::Connecting { .. }, MdnEvent::ConnectFailed(cause)) => {
                let error = SmtpError::MdnConnectionFailure(cause);
                smtp.last_send_error = Some(error.to_string());
                (MdnJob::Done, MdnAction::Finish(Err(error)))
            },
            (MdnJob::Counting { mid, contact_id }, MdnEvent::Counted) => (
                MdnJob::CheckingContact { mid, contact_id },
                MdnAction::GetContact(contact_id),
            ),
            (MdnJob::CheckingContact { mid, contact_id }, MdnEvent::Contact { blocked }) => {
                if blocked {
                    removal(mid, SmtpError::ContactBlocked)
                } else {
                    let wanted = mid.clone();
                    (
                        MdnJob::Aggregating { mid, contact_id },
                        MdnAction::FindAdditional { mid: wanted, contact_id },
                    )
                }
            },
            (MdnJob::Aggregating { mid, contact_id }, MdnEvent::Additional(additional)) => {
                let mut mids = one(mid.clone());
                for i in 0..additional.len()
                    invariant
                        text::texts(mids@) == seq![mid@] + text::texts(additional@).take(i as int),
                {
                    let ghost before = mids@;
                    mids.push(additional[i].clone());
                    proof {
                        let list = text::texts(additional@);
                        assert(list.take(i + 1) =~= list.take(i as int).push(list[i as int]));
                        assert(text::texts(mids@) =~= text::texts(before).push(list[i as int]));
                        assert(seq![mid@] + list.take(i + 1) =~= (seq![mid@] + list.take(
                            i as int,
                        )).push(list[i as int]));
                    }
                }
                proof {
                    let list = text::texts(additional@);
                    assert(list.take(list.len() as int) =~= list);
                    assert(text::texts(mids@).len() > 0);
                }
                (
                    MdnJob::Composing { mids },
                    MdnAction::Compose { mid, contact_id, additional },
                )
            },
            (
                MdnJob::Composing { mids },
                MdnEvent::Composed { encrypted, to_self, recipients },
            ) => {
                let from = match &smtp.from {
                    Some(addr) => addr.clone(),
                    None => {
                        return removal(mids[0].clone(), SmtpError::NoMdnFrom);
                    },
                };
                let recipients = if to_self {
                    let none: Vec<String> = Vec::new();
                    assert(text::texts(none@) =~= Seq::empty());
                    none
                } else {
                    recipients
                };
                let asked = from.clone();
                (
                    MdnJob::Rendering { mids, encrypted, recipients, from },
                    MdnAction::Render { from: asked },
                )
            },
            (MdnJob::Rendering { mids, encrypted, recipients, from }, MdnEvent::Rendered) => (
                MdnJob::CheckingBcc { mids, encrypted, recipients, from },
                MdnAction::GetBccSelf,
            ),
            (
                MdnJob::CheckingBcc { mids, encrypted, recipients, from },
                MdnEvent::BccSelf(bcc_self),
            ) => {
                if bcc_self && encrypted {
                    (MdnJob::AddingSelf { mids, recipients, from }, MdnAction::GetSelfAddrs)
                } else {
                    let none: Vec<String> = Vec::new();
                    assert(text::texts(none@) =~= Seq::empty());
                    Self::announce(mids, recipients, bcc_self, &none, encrypted, from)
                }
            },
            (MdnJob::AddingSelf { mids, recipients, from }, MdnEvent::SelfAddrs(addrs)) => {
                Self::announce(mids, recipients, true, &addrs, true, from)
            },
            (MdnJob::Announcing { mids, recipients }, MdnEvent::TombstoneInserted) => (
                MdnJob::Sending { mids },
                MdnAction::Send(recipients),
            ),
            (MdnJob::Sending { mids }, MdnEvent::Sent(result)) => match result {
                SendResult::Success => {
                    let mid = mids[0].clone();
                    (MdnJob::Completing { mid }, MdnAction::Delete(mids))
                },
                SendResult::Retry => (MdnJob::Done, MdnAction::Finish(Err(SmtpError::MdnRetry))),
                SendResult::Failure(reason) => removal(
                    mids[0].clone(),
                    SmtpError::MdnFailed(reason),
                ),
            },
            (MdnJob::Completing { .. }, MdnEvent::Deleted) => (
                MdnJob::Done,
                MdnAction::Finish(Ok(true)),
            ),
            (MdnJob::Removing(error), MdnEvent::Deleted) => (
                MdnJob::Done,
                MdnAction::Finish(Err(error)),
            ),
            (job, MdnEvent::Failed(reason)) => job.fail(reason),
            _ => (MdnJob::Done, MdnAction::Finish(Ok(false))),
        }
    }
}

} // verus!
