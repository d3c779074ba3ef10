//! What an SMTP server answers, and what becomes of a message that could not be sent.

use vstd::prelude::*;

use crate::text;

verus! {

/// The second digit of a reply code.
#[derive(Clone, Copy, Debug, PartialEq, Eq, Structural)]
pub enum Category {
    Syntax,
    Information,
    Connections,
    Unspecified3,
    Unspecified4,
    MailSystem,
}

/// The third digit of a reply code.
#[derive(Clone, Copy, Debug, PartialEq, Eq, Structural)]
pub enum Detail {
    Zero,
    One,
    Two,
    Three,
    Four,
    Five,
    Six,
    Seven,
    Eight,
    Nine,
}

/// A negative reply of a server.
#[derive(Debug, PartialEq, Eq)]
pub struct Reply {
    pub category: Category,
    pub detail: Detail,
    /// The lines of the text.
    pub message: Vec<String>,
}

/// Why a message could not be handed to the server.
#[derive(Debug, PartialEq, Eq)]
pub enum SendFailure {
    /// The server refused it for good.
    Permanent(Reply),
    /// The server refused it for now.
    Transient(Reply),
    /// There was no reply, for example because the connection broke.
    NoReply,
    /// The envelope is invalid.
    Envelope(String),
    /// There is no connection.
    NoTransport,
    /// The message is invalid in another way.
    Other(String),
}

/// What became of a message.
#[derive(Debug, PartialEq, Eq)]
pub enum SendResult {
    /// It was sent.
    Success,
    /// It will never be sent, for the given reason.
    Failure(String),
    /// It is to be sent later.
    Retry,
}

/// The text up to the first white space.
pub open spec fn leading_word(s: Seq<char>) -> Seq<char>
    decreases s.len(),
{
    if s.len() == 0 || text::white_space(s.first()) {
        Seq::empty()
    } else {
        seq![s.first()] + leading_word(s.drop_first())
    }
}

/// The first word of a text, if there is more than white space.
pub open spec fn first_word(s: Seq<char>) -> Option<Seq<char>>
    decreases s.len(),
{
    if s.len() == 0 {
        None
    } else if text::white_space(s.first()) {
        first_word(s.drop_first())
    } else {
        Some(leading_word(s))
    }
}

/// The first word of the first line of a reply.
pub open spec fn reply_word(lines: Seq<Seq<char>>) -> Option<Seq<char>> {
    if lines.len() == 0 {
        None
    } else {
        first_word(lines[0])
    }
}

/// `async_smtp::response::Response::first_word` returns the first word of the first line, words
/// being separated by Unicode white space. It does not look at the code, which is a fixed one
/// here.
#[verifier::external_body]
fn response_first_word(message: &Vec<String>) -> (r: Option<String>)
    ensures
        r is Some == reply_word(text::texts(message@)) is Some,
        r is Some ==> Some(r->0@) == reply_word(text::texts(message@)),
{
    let code = async_smtp::response::Code::new(
        async_smtp::response::Severity::PermanentNegativeCompletion,
        async_smtp::response::Category::MailSystem,
        async_smtp::response::Detail::Zero,
    );
    let response = async_smtp::response::Response::new(code, message.clone());
    response.first_word().map(|word| word.to_owned())
}

/// The text of a permanent error.
pub open spec fn permanent_text(lines: Seq<Seq<char>>) -> Seq<char> {
    "permanent: "@ + if lines.len() == 0 {
        "undetailed error during SMTP transaction"@
    } else {
        text::joined(lines, "; "@)
    }
}

/// `async_smtp::error::Error::Permanent` is displayed as the lines of the reply with semicolons
/// between them, or a fixed text if there are none. The code, which is a fixed one here, is not
/// shown.
#[verifier::external_body]
fn permanent_error_text(message: &Vec<String>) -> (r: String)
    ensures
        r@ == permanent_text(text::texts(message@)),
{
    let code = async_smtp::response::Code::new(
        async_smtp::response::Severity::PermanentNegativeCompletion,
        async_smtp::response::Category::MailSystem,
        async_smtp::response::Detail::Zero,
    );
    let response = async_smtp::response::Response::new(code, message.clone());
    async_smtp::error::Error::Permanent(response).to_string()
}

impl Reply {
    /// Whether a permanent refusal is likely to be a temporary one: badly configured servers
    /// answer `550 5.5.0` where they should ask to try again.
    pub open spec fn maybe_transient(&self) -> bool {
        &&& self.category == Category::MailSystem
        &&& self.detail == Detail::Zero
        &&& reply_word(text::texts(self.message@)) == Some("5.5.0"@)
    }

    fn is_maybe_transient(&self) -> (r: bool)
        ensures
            r == self.maybe_transient(),
    {
        match self.category {
            Category::MailSystem => match self.detail {
                Detail::Zero => match response_first_word(&self.message) {
                    Some(word) => text::same_text(word.as_str(), "5.5.0"),
                    None => false,
                },
                _ => false,
            },
            _ => false,
        }
    }
}

/// What becomes of a message.
pub enum Fate {
    Sent,
    Failed(Seq<char>),
    Postponed,
}

impl View for SendResult {
    type V = Fate;

    open spec fn view(&self) -> Fate {
        match self {
            SendResult::Success => Fate::Sent,
            SendResult::Failure(reason) => Fate::Failed(reason@),
            SendResult::Retry => Fate::Postponed,
        }
    }
}

impl SendFailure {
    /// What becomes of a message that could not be sent. Only what the server refused for good,
    /// and what is invalid, fails.
    pub open spec fn fate(&self) -> Fate {
        match self {
            SendFailure::Permanent(reply) => if reply.maybe_transient() {
                Fate::Postponed
            } else {
                Fate::Failed(
                    "Permanent SMTP error: "@ + permanent_text(text::texts(reply.message@)),
                )
            },
            SendFailure::Transient(_) => Fate::Postponed,
            SendFailure::NoReply => Fate::Postponed,
            SendFailure::Envelope(reason) => Fate::Failed(reason@),
            SendFailure::NoTransport => Fate::Failed("SMTP has not transport"@),
            SendFailure::Other(reason) => Fate::Failed(reason@),
        }
    }

    /// Decides what becomes of a message that could not be sent.
    pub fn result(&self) -> (r: SendResult)
        ensures
            r@ == self.fate(),
    {
        match self {
            SendFailure::Permanent(reply) => if reply.is_maybe_transient() {
                SendResult::Retry
            } else {
                let mut reason = "Permanent SMTP error: ".to_owned();
                reason.append(permanent_error_text(&reply.message).as_str());
                SendResult::Failure(reason)
            },
            SendFailure::Transient(_) => SendResult::Retry,
            SendFailure::NoReply => SendResult::Retry,
            SendFailure::Envelope(reason) => SendResult::Failure(reason.clone()),
            SendFailure::NoTransport => SendResult::Failure("SMTP has not transport".to_owned()),
            SendFailure::Other(reason) => SendResult::Failure(reason.clone()),
        }
    }
}

/// A message that the server refused for now is sent later, whatever the server replied; so is one
/// that the server gave no reply to.
pub proof fn law_temporary_failure_is_retried(reply: Reply)
    ensures
        SendFailure::Transient(reply).fate() is Postponed,
        SendFailure::NoReply.fate() is Postponed,
{
}

/// Nothing that could not be sent counts as sent. A message fails exactly if the server refused it
/// for good, unless the reply is `550 5.5.0`, or if it never came to the server although there was
/// no failure of the connection.
pub proof fn law_only_final_failures_fail(failure: SendFailure)
    ensures
        !(failure.fate() is Sent),
        failure.fate() is Failed <==> match failure {
            SendFailure::Permanent(reply) => !(reply.category is MailSystem && reply.detail is Zero
                && reply_word(text::texts(reply.message@)) == Some("5.5.0"@)),
            SendFailure::Transient(_) => false,
            SendFailure::NoReply => false,
            SendFailure::Envelope(_) => true,
            SendFailure::NoTransport => true,
            SendFailure::Other(_) => true,
        },
{
}

/// The reason of a failure is that of the error. What the server replied is a part of it.
pub proof fn law_failure_keeps_its_reason(failure: SendFailure)
    requires
        failure.fate() is Failed,
    ensures
        match failure {
            SendFailure::Permanent(reply) => failure.fate()->Failed_0 == "Permanent SMTP error: "@
                + permanent_text(text::texts(reply.message@)),
            SendFailure::Envelope(reason) => failure.fate()->Failed_0 == reason@,
            SendFailure::Other(reason) => failure.fate()->Failed_0 == reason@,
            _ => failure.fate()->Failed_0 == "SMTP has not transport"@,
        },
{
}

/// A result is seen as what it says.
pub proof fn law_result_is_seen_as_it_is(result: SendResult)
    ensures
        result is Success <==> result@ is Sent,
        result is Retry <==> result@ is Postponed,
        result is Failure <==> result@ is Failed,
        result is Failure ==> result@->Failed_0 == result->Failure_0@,
{
}

} // verus!
