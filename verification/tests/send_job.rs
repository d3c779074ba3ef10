use relaymail::queue::{ChatId, Encryption, MsgId, QueuedMail};
use relaymail::reply::SendResult;
use relaymail::send_job::{
    domain_of, is_unencrypted_refusal, QueueEntry, SendAction, SendEvent, SendJob,
};
use relaymail::smtp::{Smtp, SmtpError};

fn strings(list: &[&str]) -> Vec<String> {
    list.iter().map(|s| s.to_string()).collect()
}

fn connected() -> Smtp {
    let mut smtp = Smtp::new();
    smtp.from = Some("alice@example.org".to_string());
    smtp.logged_in("alice", 0);
    smtp.connected_to(3);
    smtp
}

fn entry(recipients: &[&str], encryption: Encryption, bcc_self: bool, retries: i64) -> QueueEntry {
    QueueEntry {
        mail: QueuedMail {
            raw_message: vec![],
            display_name: String::new(),
            rfc724_mid: "mid".to_string(),
            encryption,
            should_attach_pubkey: false,
            should_compress: false,
            should_sign: false,
            recipients: strings(recipients),
            sent_to: vec![],
            bcc_self,
        },
        msg_id: MsgId(9),
        retries,
    }
}

fn plain(recipients: &[&str]) -> QueueEntry {
    entry(recipients, Encryption::No, false, 1)
}

fn secret() -> Encryption {
    Encryption::Symmetric { shared_secret: "s".to_string() }
}

/// A job that waits for the row.
fn loading(smtp: &mut Smtp) -> SendJob {
    let (job, action) = SendJob::new();
    assert!(matches!(action, SendAction::Connect));
    let (job, action) = job.step(smtp, SendEvent::Connected);
    assert!(matches!(action, SendAction::CountRetry));
    let (job, action) = job.step(smtp, SendEvent::Counted);
    assert!(matches!(action, SendAction::LoadRow));
    job
}

/// A job that has begun to send the first portion.
fn sending(smtp: &mut Smtp, entry: QueueEntry, limit: u32) -> (SendJob, Vec<String>) {
    let job = loading(smtp);
    let (job, action) = job.step(smtp, SendEvent::Loaded(Some(entry)));
    assert!(matches!(action, SendAction::LoadKeys));
    continue_sending(smtp, job, limit)
}

fn continue_sending(smtp: &mut Smtp, job: SendJob, limit: u32) -> (SendJob, Vec<String>) {
    let (job, action) = job.step(smtp, SendEvent::KeysLoaded);
    match action {
        SendAction::GetMaxRecipients { transport_id, from } => {
            assert_eq!(transport_id, 3);
            assert_eq!(from, "alice@example.org");
        }
        _ => panic!("expected the limit to be asked for"),
    }
    let (job, action) = job.step(smtp, SendEvent::MaxRecipients(limit));
    match action {
        SendAction::Render { mail, from } => {
            assert_eq!(mail.rfc724_mid, "mid");
            assert_eq!(from, "alice@example.org");
        }
        _ => panic!("expected rendering"),
    }
    let (job, action) = job.step(smtp, SendEvent::Rendered { len: 123 });
    (job, chunk(action))
}

fn chunk(action: SendAction) -> Vec<String> {
    match action {
        SendAction::SendChunk { chunk, msg_id } => {
            assert_eq!(msg_id, MsgId(9));
            chunk
        }
        _ => panic!("expected a portion"),
    }
}

fn result(action: SendAction) -> Result<(), SmtpError> {
    match action {
        SendAction::Finish(result) => result,
        _ => panic!("expected the end"),
    }
}

#[test]
fn message_is_sent_in_portions() {
    let smtp = &mut connected();
    let (job, first) = sending(smtp, plain(&["a@x", "b@x", "c@x"]), 2);
    assert_eq!(first, ["a@x", "b@x"]);
    let (job, action) = job.step(smtp, SendEvent::ChunkDone(SendResult::Success));
    assert!(matches!(action, SendAction::SaveSentTo(list) if list == "a@x b@x"));
    let (job, action) = job.step(smtp, SendEvent::SentToSaved);
    assert_eq!(chunk(action), ["c@x"]);
    let (job, action) = job.step(smtp, SendEvent::ChunkDone(SendResult::Success));
    assert!(matches!(action, SendAction::DeleteRow));
    let (job, action) = job.step(smtp, SendEvent::RowDeleted);
    assert!(matches!(
        action,
        SendAction::Report(text) if text == "Message len=123 was SMTP-sent to 3 recipients."
    ));
    let (job, action) = job.step(smtp, SendEvent::Reported);
    assert!(matches!(action, SendAction::CheckPending(MsgId(9))));
    let (job, action) = job.step(smtp, SendEvent::Pending(false));
    assert!(matches!(action, SendAction::SetDelivered(MsgId(9))));
    let (_, action) = job.step(smtp, SendEvent::MarkedDelivered);
    assert_eq!(result(action), Ok(()));
}

#[test]
fn message_with_other_rows_is_not_delivered_yet() {
    let smtp = &mut connected();
    let (job, _) = sending(smtp, plain(&["a@x"]), 50);
    let (job, _) = job.step(smtp, SendEvent::ChunkDone(SendResult::Success));
    let (job, _) = job.step(smtp, SendEvent::RowDeleted);
    let (job, _) = job.step(smtp, SendEvent::Reported);
    let (_, action) = job.step(smtp, SendEvent::Pending(true));
    assert_eq!(result(action), Ok(()));
}

#[test]
fn message_to_be_sent_later_stays() {
    let smtp = &mut connected();
    let (job, _) = sending(smtp, plain(&["a@x"]), 50);
    let (_, action) = job.step(smtp, SendEvent::ChunkDone(SendResult::Retry));
    assert_eq!(result(action), Err(SmtpError::Retry));
}

#[test]
fn refused_message_leaves_the_queue() {
    let smtp = &mut connected();
    let (job, _) = sending(smtp, plain(&["a@x"]), 50);
    let failure = SendResult::Failure("No such user".to_string());
    let (job, action) = job.step(smtp, SendEvent::ChunkDone(failure));
    assert!(matches!(action, SendAction::DeleteRow));
    let (_, action) = job.step(smtp, SendEvent::RowDeleted);
    assert_eq!(result(action), Err(SmtpError::Refused("No such user".to_string())));
}

#[test]
fn refusal_of_unencrypted_mail_is_explained() {
    let smtp = &mut connected();
    let (job, _) = sending(smtp, plain(&["a@x"]), 50);
    let failure = SendResult::Failure("523 Invalid UNENCRYPTED Mail to x".to_string());
    let (job, action) = job.step(smtp, SendEvent::ChunkDone(failure));
    assert!(matches!(action, SendAction::FindChat(MsgId(9))));
    let (job, action) = job.step(smtp, SendEvent::ChatFound(Some((ChatId(4), 77))));
    assert!(matches!(action, SendAction::GetConfiguredAddr));
    let addr = Some("alice@nine.testrun.org".to_string());
    let (job, action) = job.step(smtp, SendEvent::ConfiguredAddr(addr));
    match action {
        SendAction::AddInfo { chat_id, timestamp, domain } => {
            assert_eq!(chat_id, ChatId(4));
            assert_eq!(timestamp, 77);
            assert_eq!(domain, "nine.testrun.org");
        }
        _ => panic!("expected an information message"),
    }
    let (job, action) = job.step(smtp, SendEvent::InfoAdded);
    assert!(matches!(action, SendAction::DeleteRow));
    let (_, action) = job.step(smtp, SendEvent::RowDeleted);
    assert!(matches!(result(action), Err(SmtpError::Refused(_))));

    // Without the message there is nobody to tell.
    let (job, _) = sending(smtp, plain(&["a@x"]), 50);
    let failure = SendResult::Failure("invalid unencrypted mail".to_string());
    let (job, _) = job.step(smtp, SendEvent::ChunkDone(failure));
    let (_, action) = job.step(smtp, SendEvent::ChatFound(None));
    assert!(matches!(action, SendAction::DeleteRow));
}

#[test]
fn message_that_was_tried_too_often_is_dropped() {
    let smtp = &mut connected();
    let job = loading(smtp);
    let tired = entry(&["a@x"], Encryption::No, false, 7);
    let (job, action) = job.step(smtp, SendEvent::Loaded(Some(tired)));
    assert!(matches!(action, SendAction::DeleteRow));
    let (job, action) = job.step(smtp, SendEvent::RowDeleted);
    match action {
        SendAction::MarkFailed { msg_id, reason } => {
            assert_eq!(msg_id, MsgId(9));
            assert_eq!(reason, "Number of retries exceeded the limit.");
        }
        _ => panic!("expected the message to be marked"),
    }
    let (_, action) = job.step(smtp, SendEvent::MarkedFailed);
    assert_eq!(result(action), Ok(()));

    let job = loading(smtp);
    let sixth = entry(&["a@x"], Encryption::No, false, 6);
    let (_, action) = job.step(smtp, SendEvent::Loaded(Some(sixth)));
    assert!(matches!(action, SendAction::LoadKeys));
}

#[test]
fn unreadable_message_is_dropped_after_too_many_tries() {
    let smtp = &mut connected();
    let unreadable = |retries| SendEvent::Unreadable {
        msg_id: MsgId(9),
        retries,
        cause: "Invalid encryption in smtp2 row".to_string(),
    };
    let job = loading(smtp);
    let (_, action) = job.step(smtp, unreadable(6));
    let error = result(action).unwrap_err();
    assert_eq!(error.to_string(), "Invalid encryption in smtp2 row");

    let job = loading(smtp);
    let (job, action) = job.step(smtp, unreadable(7));
    assert!(matches!(action, SendAction::DeleteRow));
    let (job, action) = job.step(smtp, SendEvent::RowDeleted);
    assert!(matches!(action, SendAction::MarkFailed { msg_id: MsgId(9), .. }));
    let (_, action) = job.step(smtp, SendEvent::MarkedFailed);
    assert_eq!(result(action), Ok(()));
}

#[test]
fn repeated_recipient_is_served_at_each_place() {
    let smtp = &mut connected();
    let (job, first) = sending(smtp, plain(&["a@x", "b@x", "a@x"]), 2);
    assert_eq!(first, ["a@x", "b@x"]);
    let (job, _) = job.step(smtp, SendEvent::ChunkDone(SendResult::Success));
    let (_, action) = job.step(smtp, SendEvent::SentToSaved);
    assert_eq!(chunk(action), ["a@x"]);
}

#[test]
fn row_that_is_gone_is_nothing_to_do() {
    let smtp = &mut connected();
    let job = loading(smtp);
    let (_, action) = job.step(smtp, SendEvent::Loaded(None));
    assert_eq!(result(action), Ok(()));
}

#[test]
fn failed_connection_is_remembered() {
    let smtp = &mut Smtp::new();
    let (job, _) = SendJob::new();
    let (_, action) = job.step(smtp, SendEvent::ConnectFailed("offline".to_string()));
    let error = result(action).unwrap_err();
    assert_eq!(error.to_string(), "SMTP connection failure: offline");
    assert_eq!(smtp.last_send_error.as_deref(), Some("SMTP connection failure: offline"));
}

#[test]
fn copies_of_encrypted_messages_go_to_all_own_addresses() {
    let smtp = &mut connected();
    let job = loading(smtp);
    let (job, action) =
        job.step(smtp, SendEvent::Loaded(Some(entry(&["bob@x"], secret(), true, 1))));
    assert!(matches!(action, SendAction::GetSelfAddrs));
    let own = strings(&["alice@example.org", "alice@other.org"]);
    let (job, action) = job.step(smtp, SendEvent::SelfAddrs(own));
    assert!(matches!(action, SendAction::LoadKeys));
    let (_, first) = continue_sending(smtp, job, 50);
    assert_eq!(first, ["bob@x", "alice@other.org", "alice@example.org"]);

    // An unencrypted one only to the address that it is sent from.
    let (_, first) = sending(smtp, entry(&["bob@x"], Encryption::No, true, 1), 50);
    assert_eq!(first, ["bob@x", "alice@example.org"]);

    // And none without the setting.
    let (_, first) = sending(smtp, entry(&["bob@x"], secret(), false, 1), 50);
    assert_eq!(first, ["bob@x"]);
}

#[test]
fn sending_needs_a_known_address_and_transport() {
    let mut smtp = Smtp::new();
    let job = loading(&mut smtp);
    let (_, action) =
        job.step(&mut smtp, SendEvent::Loaded(Some(entry(&["a@x"], secret(), true, 1))));
    assert_eq!(result(action), Err(SmtpError::NoFrom));

    let job = loading(&mut smtp);
    let (job, _) = job.step(&mut smtp, SendEvent::Loaded(Some(plain(&["a@x"]))));
    let (_, action) = job.step(&mut smtp, SendEvent::KeysLoaded);
    assert_eq!(result(action), Err(SmtpError::NoFrom));

    smtp.from = Some("alice@example.org".to_string());
    let job = loading(&mut smtp);
    let (job, _) = job.step(&mut smtp, SendEvent::Loaded(Some(plain(&["a@x"]))));
    let (_, action) = job.step(&mut smtp, SendEvent::KeysLoaded);
    assert_eq!(result(action), Err(SmtpError::NotConnected));
}

#[test]
fn domains_and_refusals() {
    assert_eq!(domain_of(Some("a@b".to_string())), "b");
    assert_eq!(domain_of(Some("a@b@c".to_string())), "b");
    assert_eq!(domain_of(Some("a".to_string())), "");
    assert_eq!(domain_of(None), "");
    assert!(is_unencrypted_refusal("x invalid unencrypted mail y"));
    assert!(!is_unencrypted_refusal("Invalid unencrypted mail"));
}
