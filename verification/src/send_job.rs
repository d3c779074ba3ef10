//! Sending a queued message, step by step.
//!
//! Each step takes what came of the last action and says what is to be done next. Whoever runs
//! the steps performs the actions; an action that fails on the way ends the job.

use vstd::prelude::*;

use crate::delivery;
use crate::delivery::{Delivery, Progress};
use crate::queue::{ChatId, MsgId, QueuedMail};
use crate::reply::SendResult;
use crate::smtp::{Link, Smtp, SmtpError};
use crate::text;

verus! {

/// How often it is tried to send a message. A message that is taken up once more is dropped, even
/// if it cannot be read.
pub const MAX_RETRIES: i64 = 6;

/// A message out of the queue.
#[derive(Debug, PartialEq, Eq)]
pub struct QueueEntry {
    pub mail: QueuedMail,
    pub msg_id: MsgId,
    /// How often it was tried to send the message, the current try included.
    pub retries: i64,
}

/// What came of an action.
pub enum SendEvent {
    /// There is a connection.
    Connected,
    /// There is none, for the given reason.
    ConnectFailed(String),
    /// The try was counted.
    Counted,
    /// The message, or nothing if it is no longer in the queue.
    Loaded(Option<QueueEntry>),
    /// The message is in the queue but cannot be read from there, for the given reason.
    Unreadable { msg_id: MsgId, retries: i64, cause: String },
    /// The own addresses.
    SelfAddrs(Vec<String>),
    /// The own keys are there.
    KeysLoaded,
    /// How many recipients the server takes at once.
    MaxRecipients(u32),
    /// The message was rendered, to that many bytes.
    Rendered { len: u64 },
    /// What became of the portion.
    ChunkDone(SendResult),
    /// The addresses were stored.
    SentToSaved,
    /// The row was deleted.
    RowDeleted,
    /// The message was marked as failed.
    MarkedFailed,
    /// The chat and the timestamp of the message, if it is still there.
    ChatFound(Option<(ChatId, i64)>),
    /// The address of the account.
    ConfiguredAddr(Option<String>),
    /// The information message was added.
    InfoAdded,
    /// The event was emitted.
    Reported,
    /// Whether other rows of the queue belong to the message.
    Pending(bool),
    /// The message was marked as delivered.
    MarkedDelivered,
}

/// What is to be done.
pub enum SendAction {
    /// Connect to the server.
    Connect,
    /// Count the try in the row.
    CountRetry,
    /// Load the row.
    LoadRow,
    /// Find out the own addresses.
    GetSelfAddrs,
    /// Load the own keys.
    LoadKeys,
    /// Find out how many recipients the server takes at once.
    GetMaxRecipients { transport_id: u32, from: String },
    /// Render the message with the address that it is sent from.
    Render { mail: QueuedMail, from: String },
    /// Send the rendered message to some recipients.
    SendChunk { chunk: Vec<String>, msg_id: MsgId },
    /// Store whom the message was sent to.
    SaveSentTo(String),
    /// Delete the row.
    DeleteRow,
    /// Mark the message as failed, if it is still there.
    MarkFailed { msg_id: MsgId, reason: String },
    /// Find the chat of the message.
    FindChat(MsgId),
    /// Find out the address of the account.
    GetConfiguredAddr,
    /// Tell the chat that the server of the given domain refuses unencrypted messages.
    AddInfo { chat_id: ChatId, timestamp: i64, domain: String },
    /// Emit an event with the given text.
    Report(String),
    /// Find out whether other rows of the queue belong to the message.
    CheckPending(MsgId),
    /// Mark the message as delivered.
    SetDelivered(MsgId),
    /// Nothing more; the result of the job.
    Finish(Result<(), SmtpError>),
}

/// How far a job is.
pub enum SendJob {
    Connecting,
    Counting,
    Loading,
    /// The message was tried too often and leaves the queue.
    Dropping(MsgId),
    MarkingDropped,
    AddingSelf { entry: QueueEntry, from: String },
    Preparing { entry: QueueEntry, recipients: Vec<String> },
    Limiting { entry: QueueEntry, recipients: Vec<String>, from: String },
    Rendering { msg_id: MsgId, delivery: Delivery },
    Sending { msg_id: MsgId, delivery: Delivery, len: u64 },
    Saving { msg_id: MsgId, delivery: Delivery, len: u64 },
    /// All recipients were served, and the message leaves the queue.
    Completing { msg_id: MsgId, delivery: Delivery, len: u64 },
    Reporting(MsgId),
    Checking(MsgId),
    MarkingDelivered,
    /// The message was refused because it is unencrypted.
    Explaining { reason: String },
    Locating { chat_id: ChatId, timestamp: i64, reason: String },
    Informing { reason: String },
    /// The message was refused and leaves the queue.
    Rejecting { reason: String },
    Done,
}

/// Whether a reason, in lower case, says that a server refuses unencrypted messages.
pub open spec fn refuses_unencrypted(lowered: Seq<char>) -> bool {
    text::occurs("invalid unencrypted mail"@, lowered)
}

/// Whether a reason, in lower case, says that a server refuses unencrypted messages.
pub fn is_unencrypted_refusal(lowered: &str) -> (r: bool)
    ensures
        r == refuses_unencrypted(lowered@),
{
    text::has_substring(lowered, "invalid unencrypted mail")
}

/// What stands between the first and the second `@` of an address, or after the only one.
pub open spec fn domain_part(addr: Seq<char>) -> Seq<char> {
    let parts = text::pieces(addr, '@');
    if parts.len() >= 2 {
        parts[1]
    } else {
        Seq::empty()
    }
}

/// The domain of an address, empty if there is no address or no `@` in it.
pub fn domain_of(addr: Option<String>) -> (r: String)
    ensures
        r@ == match addr {
            Some(a) => domain_part(a@),
            None => Seq::empty(),
        },
{
    match addr {
        Some(a) => {
            let parts = text::split(a.as_str(), '@');
            assert(text::texts(parts@).len() == parts@.len());
            if parts.len() >= 2 {
                assert(text::texts(parts@)[1] == parts@[1]@);
                parts[1].clone()
            } else {
                String::new()
            }
        },
        None => String::new(),
    }
}

/// The text of the event that reports a sent message.
pub open spec fn sent_report(len: u64, recipients: nat) -> Seq<char> {
    "Message len="@ + text::decimal(len as nat) + " was SMTP-sent to "@ + text::decimal(recipients)
        + " recipients."@
}

fn sent_report_text(len: u64, recipients: usize) -> (r: String)
    ensures
        r@ == sent_report(len, recipients as nat),
{
    let mut r = "Message len=".to_owned();
    r.append(text::decimal_text(len).as_str());
    r.append(" was SMTP-sent to ");
    r.append(text::decimal_text(recipients as u64).as_str());
    r.append(" recipients.");
    r
}

/// The recipients of a message, the own addresses included if they get a copy.
pub open spec fn all_recipients(
    mail: QueuedMail,
    self_addrs: Seq<Seq<char>>,
    from: Option<Seq<char>>,
) -> Seq<Seq<char>> {
    match from {
        Some(f) if mail.bcc_self => mail@.recipients + delivery::self_recipients(
            self_addrs,
            !(mail.encryption is No),
            f,
        ),
        _ => mail@.recipients,
    }
}

impl SendEvent {
    /// Whether the event answers the action that a job waits for.
    pub open spec fn answers(&self, job: SendJob) -> bool {
        match job {
            SendJob::Connecting => self is Connected || self is ConnectFailed,
            SendJob::Counting => self is Counted,
            SendJob::Loading => self is Loaded || self is Unreadable,
            SendJob::Dropping(_) => self is RowDeleted,
            SendJob::MarkingDropped => self is MarkedFailed,
            SendJob::AddingSelf { .. } => self is SelfAddrs,
            SendJob::Preparing { .. } => self is KeysLoaded,
            SendJob::Limiting { .. } => self is MaxRecipients,
            SendJob::Rendering { .. } => self is Rendered,
            SendJob::Sending { .. } => self is ChunkDone,
            SendJob::Saving { .. } => self is SentToSaved,
            SendJob::Completing { .. } => self is RowDeleted,
            SendJob::Reporting(_) => self is Reported,
            SendJob::Checking(_) => self is Pending,
            SendJob::MarkingDelivered => self is MarkedDelivered,
            SendJob::Explaining { .. } => self is ChatFound,
            SendJob::Locating { .. } => self is ConfiguredAddr,
            SendJob::Informing { .. } => self is InfoAdded,
            SendJob::Rejecting { .. } => self is RowDeleted,
            SendJob::Done => false,
        }
    }
}

/// The job ends with an error.
pub open spec fn ends_with(after: SendJob, action: SendAction, error: SmtpError) -> bool {
    after is Done && action == SendAction::Finish(Err(error))
}

/// The job ends well.
pub open spec fn ends_well(after: SendJob, action: SendAction) -> bool {
    after is Done && action == SendAction::Finish(Ok(()))
}

/// The job goes on to send the next portion; more recipients than can be counted are an error.
pub open spec fn sends_next(
    before: Progress,
    msg_id: MsgId,
    len: u64,
    after: SendJob,
    action: SendAction,
) -> bool {
    if before.rest() > u32::MAX {
        ends_with(after, action, SmtpError::TooManyRecipients)
    } else {
        &&& after matches SendJob::Sending { msg_id: id, delivery, len: l }
        &&& id == msg_id
        &&& l == len
        &&& delivery@ == before.with_next_chunk()
        &&& action matches SendAction::SendChunk { chunk, msg_id: chunk_id }
        &&& text::texts(chunk@) == delivery@.chunk()
        &&& chunk_id == msg_id
    }
}

/// The job goes on with the recipients.
pub open spec fn prepares(
    entry: QueueEntry,
    recipients: Seq<Seq<char>>,
    after: SendJob,
    action: SendAction,
) -> bool {
    &&& after matches SendJob::Preparing { entry: e, recipients: r }
    &&& e == entry
    &&& text::texts(r@) == recipients
    &&& action is LoadKeys
}

/// What a loaded row leads to: one that was tried too often leaves the queue; otherwise the own
/// addresses are added to the recipients if they get a copy.
pub open spec fn loads(
    entry: QueueEntry,
    from: Option<Seq<char>>,
    after: SendJob,
    action: SendAction,
) -> bool {
    if entry.retries > MAX_RETRIES {
        after == SendJob::Dropping(entry.msg_id) && action is DeleteRow
    } else if entry.mail.bcc_self && from is None {
        ends_with(after, action, SmtpError::NoFrom)
    } else if entry.mail.bcc_self && !(entry.mail.encryption is No) {
        &&& after matches SendJob::AddingSelf { entry: e, from: f }
        &&& e == entry
        &&& Some(f@) == from
        &&& action is GetSelfAddrs
    } else {
        prepares(entry, all_recipients(entry.mail, Seq::empty(), from), after, action)
    }
}

/// What the outcome of a portion leads to. A message that was sent to everybody, or refused,
/// leaves the queue; one that is to be sent later stays there.
pub open spec fn handles(
    msg_id: MsgId,
    delivery: Delivery,
    len: u64,
    result: SendResult,
    after: SendJob,
    action: SendAction,
) -> bool {
    match result {
        SendResult::Retry => ends_with(after, action, SmtpError::Retry),
        SendResult::Success => if delivery@.rest() > 0 {
            &&& after == (SendJob::Saving { msg_id, delivery, len })
            &&& action matches SendAction::SaveSentTo(list)
            &&& list@ == text::joined(crate::text_set::listing(delivery@.sent_to), " "@)
        } else {
            after == (SendJob::Completing { msg_id, delivery, len }) && action is DeleteRow
        },
        SendResult::Failure(reason) => if refuses_unencrypted(text::lowercase(reason@)) {
            after == (SendJob::Explaining { reason }) && action == SendAction::FindChat(msg_id)
        } else {
            after == (SendJob::Rejecting { reason }) && action is DeleteRow
        },
    }
}

/// What a job does next.
pub open spec fn steps(
    before: SendJob,
    link: Link,
    event: SendEvent,
    after: SendJob,
    action: SendAction,
) -> bool {
    match (before, event) {
        (SendJob::Connecting, SendEvent::Connected) => after is Counting && action is CountRetry,
        (SendJob::Connecting, SendEvent::ConnectFailed(cause)) => ends_with(
            after,
            action,
            SmtpError::ConnectionFailure(cause),
        ),
        (SendJob::Counting, SendEvent::Counted) => after is Loading && action is LoadRow,
        (SendJob::Loading, SendEvent::Loaded(None)) => ends_well(after, action),
        (SendJob::Loading, SendEvent::Loaded(Some(entry))) => loads(
            entry,
            link.from,
            after,
            action,
        ),
        (SendJob::Loading, SendEvent::Unreadable { msg_id, retries, cause }) => if retries
            > MAX_RETRIES {
            after == SendJob::Dropping(msg_id) && action is DeleteRow
        } else {
            ends_with(after, action, SmtpError::Unreadable(cause))
        },
        (SendJob::Dropping(msg_id), SendEvent::RowDeleted) => {
            &&& after is MarkingDropped
            &&& action matches SendAction::MarkFailed { msg_id: id, reason }
            &&& id == msg_id
            &&& reason@ == "Number of retries exceeded the limit."@
        },
        (SendJob::MarkingDropped, SendEvent::MarkedFailed) => ends_well(after, action),
        (SendJob::AddingSelf { entry, from }, SendEvent::SelfAddrs(addrs)) => prepares(
            entry,
            all_recipients(entry.mail, text::texts(addrs@), Some(from@)),
            after,
            action,
        ),
        (SendJob::Preparing { entry, recipients }, SendEvent::KeysLoaded) => match (
            link.from,
            link.transport_id,
        ) {
            (None, _) => ends_with(after, action, SmtpError::NoFrom),
            (_, None) => ends_with(after, action, SmtpError::NotConnected),
            (Some(from), Some(id)) => {
                &&& after matches SendJob::Limiting { entry: e, recipients: r, from: f }
                &&& e == entry
                &&& r == recipients
                &&& f@ == from
                &&& action matches SendAction::GetMaxRecipients { transport_id, from: asked }
                &&& transport_id == id
                &&& asked@ == from
            },
        },
        (
            SendJob::Limiting { entry, recipients, from },
            SendEvent::MaxRecipients(limit),
        ) => {
            &&& after matches SendJob::Rendering { msg_id, delivery }
            &&& msg_id == entry.msg_id
            &&& delivery@ == Progress::start(
                text::texts(recipients@),
                entry.mail@.sent_to.to_set(),
                limit,
            )
            &&& action == (SendAction::Render { mail: entry.mail, from })
        },
        (SendJob::Rendering { msg_id, delivery }, SendEvent::Rendered { len }) => sends_next(
            delivery@,
            msg_id,
            len,
            after,
            action,
        ),
        (SendJob::Sending { msg_id, delivery, len }, SendEvent::ChunkDone(result)) => handles(
            msg_id,
            delivery,
            len,
            result,
            after,
            action,
        ),
        (SendJob::Saving { msg_id, delivery, len }, SendEvent::SentToSaved) => sends_next(
            delivery@,
            msg_id,
            len,
            after,
            action,
        ),
        (SendJob::Completing { msg_id, delivery, len }, SendEvent::RowDeleted) => {
            &&& after == SendJob::Reporting(msg_id)
            &&& action matches SendAction::Report(report)
            &&& report@ == sent_report(len, delivery@.sent_to.len())
        },
        (SendJob::Reporting(msg_id), SendEvent::Reported) => after == SendJob::Checking(msg_id)
            && action == SendAction::CheckPending(msg_id),
        (SendJob::Checking(msg_id), SendEvent::Pending(pending)) => if pending {
            ends_well(after, action)
        } else {
            after is MarkingDelivered && action == SendAction::SetDelivered(msg_id)
        },
        (SendJob::MarkingDelivered, SendEvent::MarkedDelivered) => ends_well(after, action),
        (SendJob::Explaining { reason }, SendEvent::ChatFound(None)) => after == (
        SendJob::Rejecting { reason }) && action is DeleteRow,
        (SendJob::Explaining { reason }, SendEvent::ChatFound(Some((chat_id, timestamp)))) => after
            == (SendJob::Locating { chat_id, timestamp, reason }) && action is GetConfiguredAddr,
        (
            SendJob::Locating { chat_id, timestamp, reason },
            SendEvent::ConfiguredAddr(addr),
        ) => {
            &&& after == (SendJob::Informing { reason })
            &&& action matches SendAction::AddInfo { chat_id: id, timestamp: t, domain }
            &&& id == chat_id
            &&& t == timestamp
            &&& domain@ == match addr {
                Some(a) => domain_part(a@),
                None => Seq::empty(),
            }
        },
        (SendJob::Informing { reason }, SendEvent::InfoAdded) => after == (SendJob::Rejecting {
            reason,
        }) && action is DeleteRow,
        (SendJob::Rejecting { reason }, SendEvent::RowDeleted) => ends_with(
            after,
            action,
            SmtpError::Refused(reason),
        ),
        _ => false,
    }
}

impl SendJob {
    /// The deliveries that a job holds are valid.
    pub open spec fn wf(&self) -> bool {
        match self {
            SendJob::Rendering { delivery, .. } => delivery.wf(),
            SendJob::Sending { delivery, .. } => delivery.wf(),
            SendJob::Saving { delivery, .. } => delivery.wf(),
            SendJob::Completing { delivery, .. } => delivery.wf(),
            _ => true,
        }
    }

    /// A new job, which begins with connecting to the server.
    pub fn new() -> (r: (SendJob, SendAction))
        ensures
            r.0 is Connecting,
            r.1 is Connect,
    {
        (SendJob::Connecting, SendAction::Connect)
    }

    fn send_next(msg_id: MsgId, delivery: Delivery, len: u64) -> (r: (SendJob, SendAction))
        requires
            delivery.wf(),
        ensures
            r.0.wf(),
            sends_next(delivery@, msg_id, len, r.0, r.1),
    {
        let mut delivery = delivery;
        match delivery.next_chunk() {
            Ok(chunk) => (
                SendJob::Sending { msg_id, delivery, len },
                SendAction::SendChunk { chunk, msg_id },
            ),
            Err(e) => (SendJob::Done, SendAction::Finish(Err(e))),
        }
    }

    fn load(entry: QueueEntry, from: &Option<String>) -> (r: (SendJob, SendAction))
        ensures
            r.0.wf(),
            loads(entry, crate::transport_store::opt_text(*from), r.0, r.1),
    {
        if entry.retries > MAX_RETRIES {
            return (SendJob::Dropping(entry.msg_id), SendAction::DeleteRow);
        }
        let mut recipients = copied(&entry.mail.recipients);
        if entry.mail.bcc_self {
            let from = match from {
                Some(addr) => addr.clone(),
                None => {
                    return (SendJob::Done, SendAction::Finish(Err(SmtpError::NoFrom)));
                },
            };
            if entry.mail.encryption.is_encrypted() {
                return (SendJob::AddingSelf { entry, from }, SendAction::GetSelfAddrs);
            }
            let none: Vec<String> = Vec::new();
            assert(text::texts(none@) =~= Seq::empty());
            delivery::add_self_recipients(&mut recipients, false, &none, from);
        }
        (SendJob::Preparing { entry, recipients }, SendAction::LoadKeys)
    }

    fn handle(msg_id: MsgId, delivery: Delivery, len: u64, result: SendResult) -> (r: (
        SendJob,
        SendAction,
    ))
        requires
            delivery.wf(),
        ensures
            r.0.wf(),
            handles(msg_id, delivery, len, result, r.0, r.1),
    {
        match result {
            SendResult::Retry => (SendJob::Done, SendAction::Finish(Err(SmtpError::Retry))),
            SendResult::Success => {
                if delivery.has_rest() {
                    let list = delivery.sent_to_text();
                    (SendJob::Saving { msg_id, delivery, len }, SendAction::SaveSentTo(list))
                } else {
                    (SendJob::Completing { msg_id, delivery, len }, SendAction::DeleteRow)
                }
            },
            SendResult::Failure(reason) => {
                let lowered = text::lowercase_text(reason.as_str());
                if is_unencrypted_refusal(lowered.as_str()) {
                    (SendJob::Explaining { reason }, SendAction::FindChat(msg_id))
                } else {
                    (SendJob::Rejecting { reason }, SendAction::DeleteRow)
                }
            },
        }
    }

    /// Takes what came of the last action, and says what is to be done next.
    pub fn step(self, smtp: &mut Smtp, event: SendEvent) -> (r: (SendJob, SendAction))
        requires
            self.wf(),
            event.answers(self),
        ensures
            r.0.wf(),
            steps(self, old(smtp)@, event, r.0, r.1),
            match event {
                SendEvent::ConnectFailed(cause) => final(smtp)@ == (Link {
                    last_send_error: Some(SmtpError::ConnectionFailure(cause).message()),
                    ..old(smtp)@
                }),
                _ => *final(smtp) == *old(smtp),
            },
    {
        match (self, event) {
            (SendJob::Connecting, SendEvent::Connected) => (
                SendJob::Counting,
                SendAction::CountRetry,
            ),
            (SendJob::Connecting, SendEvent::ConnectFailed(cause)) => {
                let error = SmtpError::ConnectionFailure(cause);
                smtp.last_send_error = Some(error.to_string());
                (SendJob::Done, SendAction::Finish(Err(error)))
            },
            (SendJob::Counting, SendEvent::Counted) => (SendJob::Loading, SendAction::LoadRow),
            (SendJob::Loading, SendEvent::Loaded(None)) => (
                SendJob::Done,
                SendAction::Finish(Ok(())),
            ),
            (SendJob::Loading, SendEvent::Loaded(Some(entry))) => Self::load(entry, &smtp.from),
            (SendJob::Loading, SendEvent::Unreadable { msg_id, retries, cause }) => if retries
                > MAX_RETRIES {
                (SendJob::Dropping(msg_id), SendAction::DeleteRow)
            } else {
                (SendJob::Done, SendAction::Finish(Err(SmtpError::Unreadable(cause))))
            },
            (SendJob::Dropping(msg_id), SendEvent::RowDeleted) => (
                SendJob::MarkingDropped,
                SendAction::MarkFailed {
                    msg_id,
                    reason: "Number of retries exceeded the limit.".to_owned(),
                },
            ),
            (SendJob::MarkingDropped, SendEvent::MarkedFailed) => (
                SendJob::Done,
                SendAction::Finish(Ok(())),
            ),
            (SendJob::AddingSelf { entry, from }, SendEvent::SelfAddrs(addrs)) => {
                let mut recipients = copied(&entry.mail.recipients);
                if entry.mail.bcc_self {
                    delivery::add_self_recipients(
                        &mut recipients,
                        entry.mail.encryption.is_encrypted(),
                        &addrs,
                        from,
                    );
                }
                (SendJob::Preparing { entry, recipients }, SendAction::LoadKeys)
            },
            (SendJob::Preparing { entry, recipients }, SendEvent::KeysLoaded) => {
                let from = match &smtp.from {
                    Some(addr) => addr.clone(),
                    None => {
                        return (SendJob::Done, SendAction::Finish(Err(SmtpError::NoFrom)));
                    },
                };
                match smtp.transport_id {
                    Some(transport_id) => (
                        SendJob::Limiting { entry, recipients, from: from.clone() },
                        SendAction::GetMaxRecipients { transport_id, from },
                    ),
                    None => (SendJob::Done, SendAction::Finish(Err(SmtpError::NotConnected))),
                }
            },
            (SendJob::Limiting { entry, recipients, from }, SendEvent::MaxRecipients(limit)) => {
                let delivery = Delivery::new(&recipients, &entry.mail.sent_to, limit);
                (
                    SendJob::Rendering { msg_id: entry.msg_id, delivery },
                    SendAction::Render { mail: entry.mail, from },
                )
            },
            (SendJob::Rendering { msg_id, delivery }, SendEvent::Rendered { len }) => {
                Self::send_next(msg_id, delivery, len)
            },
            (SendJob::Sending { msg_id, delivery, len }, SendEvent::ChunkDone(result)) => {
                Self::handle(msg_id, delivery, len, result)
            },
            (SendJob::Saving { msg_id, delivery, len }, SendEvent::SentToSaved) => {
                Self::send_next(msg_id, delivery, len)
            },
            (SendJob::Completing { msg_id, delivery, len }, SendEvent::RowDeleted) => {
                let report = sent_report_text(len, delivery.sent_to_count());
                (SendJob::Reporting(msg_id), SendAction::Report(report))
            },
            (SendJob::Reporting(msg_id), SendEvent::Reported) => (
                SendJob::Checking(msg_id),
                SendAction::CheckPending(msg_id),
            ),
            (SendJob::Checking(msg_id), SendEvent::Pending(pending)) => if pending {
                (SendJob::Done, SendAction::Finish(Ok(())))
            } else {
                (SendJob::MarkingDelivered, SendAction::SetDelivered(msg_id))
            },
            (SendJob::MarkingDelivered, SendEvent::MarkedDelivered) => (
                SendJob::Done,
                SendAction::Finish(Ok(())),
            ),
            (SendJob::Explaining { reason }, SendEvent::ChatFound(None)) => (
                SendJob::Rejecting { reason },
                SendAction::DeleteRow,
            ),
            (SendJob::Explaining { reason }, SendEvent::ChatFound(Some((chat_id, timestamp)))) => (
                SendJob::Locating { chat_id, timestamp, reason },
                SendAction::GetConfiguredAddr,
            ),
            (
                SendJob::Locating { chat_id, timestamp, reason },
                SendEvent::ConfiguredAddr(addr),
            ) => {
                let domain = domain_of(addr);
                (SendJob::Informing { reason }, SendAction::AddInfo { chat_id, timestamp, domain })
            },
            (SendJob::Informing { reason }, SendEvent::InfoAdded) => (
                SendJob::Rejecting { reason },
                SendAction::DeleteRow,
            ),
            (SendJob::Rejecting { reason }, SendEvent::RowDeleted) => (
                SendJob::Done,
                SendAction::Finish(Err(SmtpError::Refused(reason))),
            ),
            _ => (SendJob::Done, SendAction::Finish(Ok(()))),
        }
    }
}

fn copied(list: &Vec<String>) -> (r: Vec<String>)
    ensures
        text::texts(r@) == text::texts(list@),
{
    let mut r: Vec<String> = Vec::new();
    for i in 0..list.len()
        invariant
            r@.len() == i,
            forall|j: int| 0 <= j < i ==> (#[trigger] r@[j])@ == list@[j]@,
    {
        r.push(list[i].clone());
    }
    assert(text::texts(r@) =~= text::texts(list@));
    r
}

} // verus!
