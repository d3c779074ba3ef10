use relaymail::address::keep_valid;
use relaymail::delivery::{add_self_recipients, Delivery};
use relaymail::queue::MsgId;
use relaymail::reply::{Category, Detail, Reply, SendFailure, SendResult};
use relaymail::smtp::{SendPlan, Smtp, SmtpError};

const SECOND: u64 = 1_000_000_000;

fn strings(list: &[&str]) -> Vec<String> {
    list.iter().map(|s| s.to_string()).collect()
}

fn bob() -> Vec<String> {
    strings(&["bob@example.net"])
}

fn reply(category: Category, detail: Detail, lines: &[&str]) -> Reply {
    Reply { category, detail, message: strings(lines) }
}

#[test]
fn connection_becomes_stale_after_a_minute() {
    let mut smtp = Smtp::new();
    assert!(!smtp.is_connected());
    assert!(!smtp.has_maybe_stale_connection(1000 * SECOND));
    assert_eq!(smtp.logged_in("alice", 10 * SECOND), "SMTP-LOGIN as alice ok");
    assert!(smtp.is_connected());
    assert!(!smtp.has_maybe_stale_connection(71 * SECOND - 1));
    assert!(smtp.has_maybe_stale_connection(71 * SECOND));
    // A clock that was set back makes nothing stale.
    assert!(!smtp.has_maybe_stale_connection(0));
}

#[test]
fn refusals_are_permanent_or_not() {
    let spam = reply(
        Category::MailSystem,
        Detail::Four,
        &["5.7.1 [2] Message rejected", "under suspicion of SPAM"],
    );
    assert_eq!(
        SendFailure::Permanent(spam).result(),
        SendResult::Failure(
            "Permanent SMTP error: permanent: 5.7.1 [2] Message rejected; under suspicion of SPAM"
                .to_string()
        )
    );
    let unavailable = reply(Category::MailSystem, Detail::Zero, &["5.5.0 Service unavailable"]);
    assert_eq!(SendFailure::Permanent(unavailable).result(), SendResult::Retry);
    let padded = reply(Category::MailSystem, Detail::Zero, &["\t 5.5.0\u{3000}x", "y"]);
    assert_eq!(SendFailure::Permanent(padded).result(), SendResult::Retry);
    let unknown = reply(Category::MailSystem, Detail::Zero, &["5.1.1 <x>: unknown"]);
    assert_eq!(
        SendFailure::Permanent(unknown).result(),
        SendResult::Failure("Permanent SMTP error: permanent: 5.1.1 <x>: unknown".to_string())
    );
    let elsewhere = reply(Category::Syntax, Detail::Zero, &["5.5.0 x"]);
    assert!(matches!(SendFailure::Permanent(elsewhere).result(), SendResult::Failure(_)));
    let second_line = reply(Category::MailSystem, Detail::Zero, &["", "5.5.0"]);
    assert!(matches!(SendFailure::Permanent(second_line).result(), SendResult::Failure(_)));
    let silent = reply(Category::MailSystem, Detail::Zero, &[]);
    assert_eq!(
        SendFailure::Permanent(silent).result(),
        SendResult::Failure(
            "Permanent SMTP error: permanent: undetailed error during SMTP transaction".to_string()
        )
    );
    let transient = reply(Category::MailSystem, Detail::Zero, &["4.1.2 Domain not found"]);
    assert_eq!(SendFailure::Transient(transient).result(), SendResult::Retry);
    assert_eq!(SendFailure::NoReply.result(), SendResult::Retry);
    assert_eq!(
        SendFailure::Envelope("bad".to_string()).result(),
        SendResult::Failure("bad".to_string())
    );
    assert_eq!(
        SendFailure::NoTransport.result(),
        SendResult::Failure("SMTP has not transport".to_string())
    );
    assert_eq!(
        SendFailure::Other("odd".to_string()).result(),
        SendResult::Failure("odd".to_string())
    );
}

#[test]
fn failed_sending_disconnects() {
    let mut smtp = Smtp::new();
    smtp.logged_in("alice", 0);
    let decision =
        smtp.smtp_send(&bob(), Some((SendFailure::NoReply, "broken pipe".to_string())), Some(MsgId(1)));
    assert_eq!(decision.result, SendResult::Retry);
    assert!(decision.quit);
    assert_eq!(decision.mark_failed, None);
    assert!(!smtp.is_connected());
    assert_eq!(smtp.last_send_error.as_deref(), Some("broken pipe"));

    smtp.logged_in("alice", 0);
    let decision = smtp.smtp_send(&bob(), None, Some(MsgId(1)));
    assert_eq!(decision.result, SendResult::Success);
    assert!(!decision.quit);
    assert!(smtp.is_connected());
    assert_eq!(smtp.last_send_error, None);
}

#[test]
fn failed_message_is_marked() {
    let mut smtp = Smtp::new();
    smtp.logged_in("alice", 0);
    let failure = || Some((SendFailure::Envelope("bad".to_string()), "Envelope".to_string()));
    let decision = smtp.smtp_send(&bob(), failure(), Some(MsgId(4)));
    assert_eq!(decision.mark_failed, Some((MsgId(4), "bad".to_string())));
    assert_eq!(smtp.smtp_send(&bob(), failure(), None).mark_failed, None);
    // It makes no sense to disconnect from nothing.
    smtp.logged_in("alice", 0);
    let decision = smtp.smtp_send(&bob(), Some((SendFailure::NoTransport, "none".to_string())), None);
    assert!(!decision.quit);
    assert!(smtp.is_connected());
}

#[test]
fn message_to_nobody_counts_as_sent() {
    let mut smtp = Smtp::new();
    smtp.logged_in("alice", 5);
    smtp.last_send_error = Some("old".to_string());
    match smtp.plan_send(&vec![]) {
        SendPlan::Done(decision) => {
            assert_eq!(decision.result, SendResult::Success);
            assert!(!decision.quit);
            assert_eq!(decision.mark_failed, None);
        }
        SendPlan::HandOver => panic!("nothing is to be handed over"),
    }
    assert_eq!(smtp.plan_send(&bob()), SendPlan::HandOver);

    // The connection is left as it is.
    let decision = smtp.smtp_send(&vec![], None, Some(MsgId(1)));
    assert_eq!(decision.result, SendResult::Success);
    assert!(smtp.is_connected());
    assert_eq!(smtp.last_success, Some(5));
    assert_eq!(smtp.last_send_error.as_deref(), Some("old"));
}

#[test]
fn invalid_addresses_are_left_out() {
    let list = strings(&["a@b", "a b", "é@b", "<a@b>", "a\u{7f}", "~!", "", "a\n"]);
    assert_eq!(keep_valid(&list), ["a@b", "~!", ""]);
}

#[test]
fn own_addresses_are_added() {
    let own = strings(&["alice@example.org", "alice@otherprovider.com", "alice@third.com"]);
    let mut recipients = strings(&["bob@example.net"]);
    add_self_recipients(&mut recipients, true, &own, "alice@otherprovider.com".to_string());
    assert_eq!(
        recipients,
        ["bob@example.net", "alice@example.org", "alice@third.com", "alice@otherprovider.com"]
    );
    let mut recipients = strings(&["bob@example.net"]);
    add_self_recipients(&mut recipients, false, &own, "alice@example.org".to_string());
    assert_eq!(recipients, ["bob@example.net", "alice@example.org"]);
}

#[test]
fn recipients_are_served_in_portions() {
    let recipients = strings(&["a@x", "b@x", "bad one", "c@x", "d@x", "e@x"]);
    let mut delivery = Delivery::new(&recipients, &strings(&["b@x"]), 2);
    assert_eq!(delivery.next_chunk().unwrap(), ["a@x", "c@x"]);
    assert!(delivery.has_rest());
    assert_eq!(delivery.sent_to_text(), "a@x b@x c@x");
    assert_eq!(delivery.next_chunk().unwrap(), ["d@x", "e@x"]);
    assert!(!delivery.has_rest());
    assert_eq!(delivery.sent_to_count(), 5);
    assert_eq!(delivery.next_chunk().unwrap(), Vec::<String>::new());
}

#[test]
fn server_that_takes_nobody_is_given_one_recipient() {
    let mut delivery = Delivery::new(&strings(&["a@x", "b@x"]), &vec![], 0);
    assert_eq!(delivery.next_chunk().unwrap(), ["a@x"]);
    assert_eq!(delivery.next_chunk().unwrap(), ["b@x"]);
}

#[test]
fn nobody_is_served_again() {
    let recipients = strings(&["a@x", "b@x", "c@x"]);
    let mut delivery = Delivery::new(&recipients, &vec![], 2);
    delivery.next_chunk().unwrap();
    let stored = relaymail::text::load_list(&delivery.sent_to_text());
    let mut delivery = Delivery::new(&recipients, &stored, 2);
    assert_eq!(delivery.next_chunk().unwrap(), ["c@x"]);
}

#[test]
fn errors_have_texts() {
    let expected = [
        (SmtpError::ConnectionFailure("x".to_string()), "SMTP connection failure: x"),
        (
            SmtpError::MdnConnectionFailure("x".to_string()),
            "SMTP connection failure while preparing to send MDNs: x",
        ),
        (SmtpError::NoFrom, "No From address available, likely not connected"),
        (SmtpError::NoMdnFrom, "No From address, not connected"),
        (SmtpError::NotConnected, "Not connected"),
        (SmtpError::TooManyRecipients, "Too many SMTP recipients"),
        (SmtpError::Unreadable("bad row".to_string()), "bad row"),
        (SmtpError::Unreachable("down".to_string()), "down"),
        (SmtpError::NoCandidates, "No SMTP connection candidates provided"),
        (SmtpError::NoServer, "Failed to connect to any SMTP server"),
        (SmtpError::Retry, "Retry"),
        (SmtpError::Refused("no".to_string()), "no"),
        (SmtpError::ContactBlocked, "Contact is blocked"),
        (SmtpError::MdnRetry, "Temporary error while sending an MDN"),
        (SmtpError::MdnFailed("no".to_string()), "no"),
    ];
    for (error, text) in expected {
        assert_eq!(error.to_string(), text);
    }
}
