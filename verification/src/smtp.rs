//! The SMTP connection: when it is made, reused and given up.

use vstd::prelude::*;

use crate::queue::MsgId;
use crate::reply::{Fate, SendFailure, SendResult};
use crate::transport_store;

verus! {

/// After how many seconds without success a connection may be stale.
pub const STALE_AFTER_SECONDS: u64 = 60;

pub const NANOS_PER_SECOND: u64 = 1_000_000_000;

/// What can go wrong on the way to the server and back.
#[derive(Debug, PartialEq, Eq)]
pub enum SmtpError {
    /// The address to send from is not valid. The address is given in quotes.
    InvalidAddress { quoted_addr: String },
    /// There is no server to connect to.
    NoCandidates,
    /// The first server that was tried could not be reached.
    Unreachable(String),
    /// No transport could be connected to.
    NoServer,
    /// The connection failed before a message could be sent.
    ConnectionFailure(String),
    /// The connection failed before a read receipt could be sent.
    MdnConnectionFailure(String),
    /// It is not known which address to send from.
    NoFrom,
    /// It is not known which address to send a read receipt from.
    NoMdnFrom,
    /// It is not known which transport is connected.
    NotConnected,
    /// There are more recipients than can be counted.
    TooManyRecipients,
    /// The message is in the queue but cannot be read from there.
    Unreadable(String),
    /// The message is to be sent later.
    Retry,
    /// The message was refused.
    Refused(String),
    /// The contact that a read receipt is for is blocked.
    ContactBlocked,
    /// The read receipt is to be sent later.
    MdnRetry,
    /// The read receipt could not be made or was refused.
    MdnFailed(String),
}

impl SmtpError {
    /// The text of the error, with the text of what caused it.
    pub open spec fn message(&self) -> Seq<char> {
        match self {
            SmtpError::InvalidAddress { quoted_addr } => "Invalid address "@ + quoted_addr@,
            SmtpError::NoCandidates => "No SMTP connection candidates provided"@,
            SmtpError::Unreachable(cause) => cause@,
            SmtpError::NoServer => "Failed to connect to any SMTP server"@,
            SmtpError::ConnectionFailure(cause) => "SMTP connection failure: "@ + cause@,
            SmtpError::MdnConnectionFailure(cause) =>
                "SMTP connection failure while preparing to send MDNs: "@ + cause@,
            SmtpError::NoFrom => "No From address available, likely not connected"@,
            SmtpError::NoMdnFrom => "No From address, not connected"@,
            SmtpError::NotConnected => "Not connected"@,
            SmtpError::TooManyRecipients => "Too many SMTP recipients"@,
            SmtpError::Unreadable(cause) => cause@,
            SmtpError::Retry => "Retry"@,
            SmtpError::Refused(reason) => reason@,
            SmtpError::ContactBlocked => "Contact is blocked"@,
            SmtpError::MdnRetry => "Temporary error while sending an MDN"@,
            SmtpError::MdnFailed(reason) => reason@,
        }
    }

    /// The text of the error, with the text of what caused it.
    pub fn to_string(&self) -> (r: String)
        ensures
            r@ == self.message(),
    {
        match self {
            SmtpError::InvalidAddress { quoted_addr } => {
                let mut r = "Invalid address ".to_owned();
                r.append(quoted_addr.as_str());
                r
            },
            SmtpError::NoCandidates => "No SMTP connection candidates provided".to_owned(),
            SmtpError::Unreachable(cause) => cause.clone(),
            SmtpError::NoServer => "Failed to connect to any SMTP server".to_owned(),
            SmtpError::ConnectionFailure(cause) => {
                let mut r = "SMTP connection failure: ".to_owned();
                r.append(cause.as_str());
                r
            },
            SmtpError::MdnConnectionFailure(cause) => {
                let mut r = "SMTP connection failure while preparing to send MDNs: ".to_owned();
                r.append(cause.as_str());
                r
            },
            SmtpError::NoFrom => "No From address available, likely not connected".to_owned(),
            SmtpError::NoMdnFrom => "No From address, not connected".to_owned(),
            SmtpError::NotConnected => "Not connected".to_owned(),
            SmtpError::TooManyRecipients => "Too many SMTP recipients".to_owned(),
            SmtpError::Unreadable(cause) => cause.clone(),
            SmtpError::Retry => "Retry".to_owned(),
            SmtpError::Refused(reason) => reason.clone(),
            SmtpError::ContactBlocked => "Contact is blocked".to_owned(),
            SmtpError::MdnRetry => "Temporary error while sending an MDN".to_owned(),
            SmtpError::MdnFailed(reason) => reason.clone(),
        }
    }
}

/// The state of the SMTP connection. Times are nanoseconds of a clock that does not matter.
#[derive(Debug, PartialEq, Eq)]
pub struct Smtp {
    /// Whether there is a connection.
    pub connected: bool,
    /// The address that is sent from.
    pub from: Option<String>,
    /// The transport that was connected to last.
    pub transport_id: Option<u32>,
    /// When the connection was last known to work, `None` after a disconnect.
    pub last_success: Option<u64>,
    /// Why the last message could not be sent.
    pub last_send_error: Option<String>,
}

/// What the state of the connection is in texts and numbers.
pub struct Link {
    pub connected: bool,
    pub from: Option<Seq<char>>,
    pub transport_id: Option<u32>,
    pub last_success: Option<u64>,
    pub last_send_error: Option<Seq<char>>,
}

impl View for Smtp {
    type V = Link;

    open spec fn view(&self) -> Link {
        Link {
            connected: self.connected,
            from: transport_store::opt_text(self.from),
            transport_id: self.transport_id,
            last_success: self.last_success,
            last_send_error: transport_store::opt_text(self.last_send_error),
        }
    }
}

impl Link {
    /// No connection yet.
    pub open spec fn fresh() -> Link {
        Link {
            connected: false,
            from: None,
            transport_id: None,
            last_success: None,
            last_send_error: None,
        }
    }

    /// Whether the connection was not used successfully for more than 60 whole seconds.
    pub open spec fn maybe_stale(self, now: u64) -> bool {
        self.last_success matches Some(last) && (now - last) / (NANOS_PER_SECOND as int)
            > STALE_AFTER_SECONDS
    }

    /// The state after a disconnect.
    pub open spec fn disconnected(self) -> Link {
        Link { connected: false, last_success: None, ..self }
    }

    /// The state after a connection that may be stale was closed.
    pub open spec fn refreshed(self, now: u64) -> Link {
        if self.maybe_stale(now) {
            self.disconnected()
        } else {
            self
        }
    }
}

/// What `Smtp::smtp_send` decided.
#[derive(Debug, PartialEq, Eq)]
pub struct SendDecision {
    /// What became of the message.
    pub result: SendResult,
    /// Whether a connection was dropped, so that the server has to be told.
    pub quit: bool,
    /// The message that is to be marked as failed, and why.
    pub mark_failed: Option<(MsgId, String)>,
}

/// What is to be done to send a message.
#[derive(Debug, PartialEq, Eq)]
pub enum SendPlan {
    /// Nothing; what became of the message.
    Done(SendDecision),
    /// Hand the message to the server.
    HandOver,
}

impl Default for Smtp {
    fn default() -> (r: Smtp)
        ensures
            r@ == Link::fresh(),
    {
        Smtp {
            connected: false,
            from: None,
            transport_id: None,
            last_success: None,
            last_send_error: None,
        }
    }
}

impl Smtp {
    /// Not connected yet.
    pub fn new() -> (r: Smtp)
        ensures
            r@ == Link::fresh(),
    {
        Default::default()
    }

    /// Drops the connection. Returns whether there was one, to which QUIT has to be sent.
    pub fn disconnect(&mut self) -> (quit: bool)
        ensures
            quit == old(self)@.connected,
            final(self)@ == old(self)@.disconnected(),
    {
        let quit = self.connected;
        self.connected = false;
        self.last_success = None;
        quit
    }

    /// Whether the connection has not been used successfully in the last 60 seconds.
    pub fn has_maybe_stale_connection(&self, now: u64) -> (r: bool)
        ensures
            r == self@.maybe_stale(now),
    {
        match self.last_success {
            Some(last) => now >= last && (now - last) / NANOS_PER_SECOND > STALE_AFTER_SECONDS,
            None => false,
        }
    }

    /// Whether there is a connection.
    pub fn is_connected(&self) -> (r: bool)
        ensures
            r == self@.connected,
    {
        self.connected
    }

    /// Remembers the transport that was connected to.
    pub fn connected_to(&mut self, transport_id: u32)
        ensures
            final(self)@ == (Link { transport_id: Some(transport_id), ..old(self)@ }),
    {
        self.transport_id = Some(transport_id);
    }

    /// Takes note of a successful login as `user`. Returns the text of the event that reports it.
    pub fn logged_in(&mut self, user: &str, now: u64) -> (event: String)
        ensures
            final(self)@ == (Link { connected: true, last_success: Some(now), ..old(self)@ }),
            event@ == "SMTP-LOGIN as "@ + user@ + " ok"@,
    {
        self.connected = true;
        self.last_success = Some(now);
        let mut event = "SMTP-LOGIN as ".to_owned();
        event.append(user);
        event.append(" ok");
        event
    }

    /// Decides whether a message is handed to the server. One without recipients is not; it
    /// counts as sent.
    pub fn plan_send(&self, recipients: &Vec<String>) -> (r: SendPlan)
        ensures
            match r {
                SendPlan::Done(decision) => {
                    &&& recipients@.len() == 0
                    &&& decision.result@ == Fate::Sent
                    &&& !decision.quit
                    &&& decision.mark_failed is None
                },
                SendPlan::HandOver => recipients@.len() > 0,
            },
    {
        if recipients.len() == 0 {
            SendPlan::Done(
                SendDecision { result: SendResult::Success, quit: false, mark_failed: None },
            )
        } else {
            SendPlan::HandOver
        }
    }

    /// Takes note of how handing a message to the server went. `failure` is the error, if there
    /// was one, with its text. A message without recipients counts as sent and is no matter of the
    /// connection.
    pub fn smtp_send(
        &mut self,
        recipients: &Vec<String>,
        failure: Option<(SendFailure, String)>,
        msg_id: Option<MsgId>,
    ) -> (r: SendDecision)
        ensures
            recipients@.len() == 0 ==> {
                &&& *final(self) == *old(self)
                &&& r.result@ == Fate::Sent
                &&& !r.quit
                &&& r.mark_failed is None
            },
            recipients@.len() > 0 ==> match failure {
                None => {
                    &&& final(self)@ == (Link { last_send_error: None, ..old(self)@ })
                    &&& r.result@ == Fate::Sent
                    &&& !r.quit
                    &&& r.mark_failed is None
                },
                Some((failure, error)) => {
                    let dropped = !(failure is NoTransport);
                    let link = if dropped {
                        old(self)@.disconnected()
                    } else {
                        old(self)@
                    };
                    &&& final(self)@ == (Link { last_send_error: Some(error@), ..link })
                    &&& r.result@ == failure.fate()
                    &&& r.quit == (dropped && old(self)@.connected)
                    &&& match r.mark_failed {
                        Some((id, reason)) => Some(id) == msg_id && failure.fate()
                            == Fate::Failed(reason@),
                        None => msg_id is None || !(failure.fate() is Failed),
                    }
                },
            },
    {
        if let SendPlan::Done(decision) = self.plan_send(recipients) {
            return decision;
        }
        match failure {
            None => {
                self.last_send_error = None;
                SendDecision { result: SendResult::Success, quit: false, mark_failed: None }
            },
            Some((failure, error)) => {
                self.last_send_error = Some(error);
                let result = failure.result();
                let quit = match failure {
                    SendFailure::NoTransport => false,
                    _ => self.disconnect(),
                };
                let mut mark_failed: Option<(MsgId, String)> = None;
                if let SendResult::Failure(reason) = &result {
                    if let Some(id) = msg_id {
                        mark_failed = Some((id, reason.clone()));
                    }
                }
                SendDecision { result, quit, mark_failed }
            },
        }
    }
}

/// A connection may be stale exactly if 61 seconds or more have passed since it last worked. One
/// that is not known to have worked is not stale.
pub proof fn law_connection_is_stale_after_a_minute(link: Link, now: u64)
    ensures
        link.maybe_stale(now) <==> link.last_success is Some && now - link.last_success->0
            >= 61_000_000_000,
{
}

/// Dropping a connection forgets that it worked, and nothing else.
pub proof fn law_disconnecting_keeps_the_rest(link: Link)
    ensures
        ({
            let after = link.disconnected();
            &&& !after.connected
            &&& after.last_success is None
            &&& after.from == link.from
            &&& after.transport_id == link.transport_id
            &&& after.last_send_error == link.last_send_error
        }),
{
}

/// A connection is closed before it is used exactly if it may be stale.
pub proof fn law_only_stale_connections_are_closed(link: Link, now: u64)
    ensures
        ({
            let after = link.refreshed(now);
            let stale = link.last_success is Some && now - link.last_success->0 >= 61_000_000_000;
            &&& !stale ==> after == link
            &&& stale ==> !after.connected && after.last_success is None
            &&& after.from == link.from
            &&& after.transport_id == link.transport_id
            &&& after.last_send_error == link.last_send_error
        }),
{
}

/// The state of a connection is seen as it is, and there is none at first.
pub proof fn law_connection_is_seen_as_it_is(smtp: Smtp)
    ensures
        smtp@.connected == smtp.connected,
        smtp@.transport_id == smtp.transport_id,
        smtp@.last_success == smtp.last_success,
        smtp@.from is Some == smtp.from is Some,
        smtp@.from is Some ==> smtp@.from->0 == smtp.from->0@,
        smtp@.last_send_error is Some == smtp.last_send_error is Some,
        smtp@.last_send_error is Some ==> smtp@.last_send_error->0 == smtp.last_send_error->0@,
        !Link::fresh().connected,
        Link::fresh().from is None,
        Link::fresh().transport_id is None,
        Link::fresh().last_success is None,
{
}

/// An error that has a cause shows it at its end.
pub proof fn law_error_shows_its_cause(cause: String)
    ensures
        SmtpError::Unreachable(cause).message() == cause@,
        SmtpError::Unreadable(cause).message() == cause@,
        SmtpError::Refused(cause).message() == cause@,
        SmtpError::MdnFailed(cause).message() == cause@,
        cause@.is_suffix_of(SmtpError::ConnectionFailure(cause).message()),
        cause@.is_suffix_of(SmtpError::MdnConnectionFailure(cause).message()),
        cause@.is_suffix_of(SmtpError::InvalidAddress { quoted_addr: cause }.message()),
{
    let a = SmtpError::ConnectionFailure(cause).message();
    let b = SmtpError::MdnConnectionFailure(cause).message();
    let c = SmtpError::InvalidAddress { quoted_addr: cause }.message();
    assert(a.subrange(a.len() - cause@.len(), a.len() as int) =~= cause@);
    assert(b.subrange(b.len() - cause@.len(), b.len() as int) =~= cause@);
    assert(c.subrange(c.len() - cause@.len(), c.len() as int) =~= cause@);
}

} // verus!
