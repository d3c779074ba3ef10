use relaymail::mdn_job::{MdnAction, MdnEvent, MdnJob};
use relaymail::mdn_queue::{MdnQueue, MdnRow};
use relaymail::reply::SendResult;
use relaymail::send_round::{RoundAction, RoundEvent, SendRound};
use relaymail::smtp::{Smtp, SmtpError};

fn strings(list: &[&str]) -> Vec<String> {
    list.iter().map(|s| s.to_string()).collect()
}

fn queue(rows: &[(&str, u32, i64)]) -> MdnQueue {
    MdnQueue {
        rows: rows
            .iter()
            .enumerate()
            .map(|(id, (mid, from_id, retries))| MdnRow {
                id: id as i64,
                rfc724_mid: mid.to_string(),
                from_id: *from_id,
                retries: *retries,
            })
            .collect(),
    }
}

fn mids(queue: &MdnQueue) -> Vec<(String, i64)> {
    queue.rows.iter().map(|row| (row.rfc724_mid.clone(), row.retries)).collect()
}

#[test]
fn receipts_that_were_tried_too_often_are_purged() {
    let mut q = queue(&[("a", 10, 7), ("b", 10, 6), ("c", 11, 0)]);
    q.purge();
    assert_eq!(mids(&q), [("b".to_string(), 6), ("c".to_string(), 0)]);
}

#[test]
fn receipt_that_was_tried_least_comes_next() {
    assert_eq!(queue(&[]).next(), None);
    assert_eq!(queue(&[("a", 10, 2), ("b", 10, 1), ("c", 11, 1)]).next(), Some(1));
    let mut q = queue(&[("a", 10, 0), ("b", 11, 0)]);
    assert_eq!(q.next(), Some(0));
    q.count_retry("a");
    assert_eq!(mids(&q), [("a".to_string(), 1), ("b".to_string(), 0)]);
    assert_eq!(q.next(), Some(1));
}

#[test]
fn receipts_for_a_contact_leave_together() {
    let mut q = queue(&[("a", 10, 0), ("b", 11, 0), ("c", 10, 3), ("a", 11, 0)]);
    let additional = q.additional(10, "a");
    assert_eq!(additional, ["c"]);
    let mut sent = strings(&["a"]);
    sent.extend(additional);
    q.remove_all(&sent);
    assert_eq!(mids(&q), [("b".to_string(), 0)]);
    q.remove("b");
    assert!(q.rows.is_empty());
}

fn connected() -> Smtp {
    let mut smtp = Smtp::new();
    smtp.from = Some("alice@example.org".to_string());
    smtp
}

/// A job that looks for other receipts.
fn aggregating(smtp: &mut Smtp) -> MdnJob {
    let (job, action) = MdnJob::new();
    assert!(matches!(action, MdnAction::Pick));
    let (job, action) = job.step(smtp, MdnEvent::Picked(Some(("m".to_string(), 10))));
    assert!(matches!(action, MdnAction::Connect));
    let (job, action) = job.step(smtp, MdnEvent::Connected);
    assert!(matches!(action, MdnAction::CountRetry(mid) if mid == "m"));
    let (job, action) = job.step(smtp, MdnEvent::Counted);
    assert!(matches!(action, MdnAction::GetContact(10)));
    let (job, action) = job.step(smtp, MdnEvent::Contact { blocked: false });
    assert!(matches!(
        action,
        MdnAction::FindAdditional { mid, contact_id: 10 } if mid == "m"
    ));
    job
}

/// A job that was told what the receipt is like.
fn composed(smtp: &mut Smtp, encrypted: bool, to_self: bool) -> (MdnJob, MdnAction) {
    let job = aggregating(smtp);
    let (job, action) = job.step(smtp, MdnEvent::Additional(strings(&["n"])));
    match action {
        MdnAction::Compose { mid, contact_id, additional } => {
            assert_eq!(mid, "m");
            assert_eq!(contact_id, 10);
            assert_eq!(additional, ["n"]);
        }
        _ => panic!("expected composing"),
    }
    let recipients = strings(&["bob@x", "bad one"]);
    job.step(smtp, MdnEvent::Composed { encrypted, to_self, recipients })
}

/// The recipients of a receipt, and the job that sends it.
fn sending(encrypted: bool, to_self: bool, bcc_self: bool) -> (MdnJob, Vec<String>) {
    let smtp = &mut connected();
    let (job, action) = composed(smtp, encrypted, to_self);
    assert!(matches!(action, MdnAction::Render { from } if from == "alice@example.org"));
    let (job, action) = job.step(smtp, MdnEvent::Rendered);
    assert!(matches!(action, MdnAction::GetBccSelf));
    let (mut job, mut action) = job.step(smtp, MdnEvent::BccSelf(bcc_self));
    if matches!(action, MdnAction::GetSelfAddrs) {
        let own = strings(&["alice@other.org", "alice@example.org"]);
        let next = job.step(smtp, MdnEvent::SelfAddrs(own));
        job = next.0;
        action = next.1;
    }
    assert!(matches!(action, MdnAction::InsertTombstone));
    let (job, action) = job.step(smtp, MdnEvent::TombstoneInserted);
    match action {
        MdnAction::Send(recipients) => (job, recipients),
        _ => panic!("expected sending"),
    }
}

fn deletes(action: MdnAction) -> Vec<String> {
    match action {
        MdnAction::Delete(mids) => mids,
        _ => panic!("expected a deletion"),
    }
}

fn result(action: MdnAction) -> Result<bool, SmtpError> {
    match action {
        MdnAction::Finish(result) => result,
        _ => panic!("expected the end"),
    }
}

#[test]
fn receipt_is_sent_with_others() {
    let (job, recipients) = sending(true, false, false);
    assert_eq!(recipients, ["bob@x"]);
    let smtp = &mut connected();
    let (job, action) = job.step(smtp, MdnEvent::Sent(SendResult::Success));
    assert_eq!(deletes(action), ["m", "n"]);
    let (_, action) = job.step(smtp, MdnEvent::Deleted);
    assert_eq!(result(action), Ok(true));
}

#[test]
fn copies_of_receipts() {
    assert_eq!(sending(true, false, true).1, ["bob@x", "alice@other.org", "alice@example.org"]);
    assert_eq!(sending(false, false, true).1, ["bob@x", "alice@example.org"]);
    assert_eq!(sending(true, true, true).1, ["alice@other.org", "alice@example.org"]);
    assert_eq!(sending(true, true, false).1, Vec::<String>::new());
}

#[test]
fn receipt_to_be_sent_later_stays() {
    let (job, _) = sending(true, false, false);
    let (_, action) = job.step(&mut connected(), MdnEvent::Sent(SendResult::Retry));
    assert_eq!(result(action), Err(SmtpError::MdnRetry));
}

#[test]
fn refused_receipt_leaves_alone() {
    let (job, _) = sending(true, false, false);
    let smtp = &mut connected();
    let failure = SendResult::Failure("no".to_string());
    let (job, action) = job.step(smtp, MdnEvent::Sent(failure));
    assert_eq!(deletes(action), ["m"]);
    let (_, action) = job.step(smtp, MdnEvent::Deleted);
    assert_eq!(result(action), Err(SmtpError::MdnFailed("no".to_string())));
}

#[test]
fn receipt_for_a_blocked_contact_leaves() {
    let smtp = &mut connected();
    let (job, _) = MdnJob::new();
    let (job, _) = job.step(smtp, MdnEvent::Picked(Some(("m".to_string(), 10))));
    let (job, _) = job.step(smtp, MdnEvent::Connected);
    let (job, _) = job.step(smtp, MdnEvent::Counted);
    let (job, action) = job.step(smtp, MdnEvent::Contact { blocked: true });
    assert_eq!(deletes(action), ["m"]);
    let (_, action) = job.step(smtp, MdnEvent::Deleted);
    assert_eq!(result(action).unwrap_err().to_string(), "Contact is blocked");
}

#[test]
fn invalid_receipt_leaves() {
    let smtp = &mut connected();
    let job = aggregating(smtp);
    let (job, action) = job.step(smtp, MdnEvent::Failed("no message".to_string()));
    assert_eq!(deletes(action), ["m"]);
    let (_, action) = job.step(smtp, MdnEvent::Deleted);
    assert_eq!(result(action), Err(SmtpError::MdnFailed("no message".to_string())));

    // Even after it was sent, if its row cannot be deleted together with the others.
    let (job, _) = sending(true, false, false);
    let (job, _) = job.step(&mut connected(), MdnEvent::Sent(SendResult::Success));
    let (_, action) = job.step(&mut connected(), MdnEvent::Failed("locked".to_string()));
    assert_eq!(deletes(action), ["m"]);

    let smtp = &mut Smtp::new();
    let (job, action) = composed(smtp, true, false);
    assert_eq!(deletes(action), ["m"]);
    let (_, action) = job.step(smtp, MdnEvent::Deleted);
    assert_eq!(result(action), Err(SmtpError::NoMdnFrom));
}

#[test]
fn failed_connection_costs_no_try() {
    let smtp = &mut Smtp::new();
    let (job, _) = MdnJob::new();
    let (job, _) = job.step(smtp, MdnEvent::Picked(Some(("m".to_string(), 10))));
    let (_, action) = job.step(smtp, MdnEvent::ConnectFailed("offline".to_string()));
    assert_eq!(
        result(action).unwrap_err().to_string(),
        "SMTP connection failure while preparing to send MDNs: offline"
    );
    assert_eq!(
        smtp.last_send_error.as_deref(),
        Some("SMTP connection failure while preparing to send MDNs: offline")
    );
}

#[test]
fn no_receipt_is_nothing_to_do() {
    let (job, _) = MdnJob::new();
    let (_, action) = job.step(&mut connected(), MdnEvent::Picked(None));
    assert_eq!(result(action), Ok(false));
}

#[test]
fn round_sends_updates_messages_and_receipts() {
    let (round, action) = SendRound::new();
    assert_eq!(action, RoundAction::CheckRatelimit);
    let (round, action) = round.step(RoundEvent::Ratelimit { can_send: true });
    assert_eq!(action, RoundAction::QueueUpdates);
    let (round, action) = round.step(RoundEvent::UpdatesQueued);
    assert_eq!(action, RoundAction::LoadRows);
    let (round, action) = round.step(RoundEvent::Rows(vec![4, 7]));
    assert_eq!(action, RoundAction::SendRow(4));
    let (round, action) = round.step(RoundEvent::RowSent);
    assert_eq!(action, RoundAction::SendRow(7));
    let (round, action) = round.step(RoundEvent::RowSent);
    assert_eq!(action, RoundAction::CheckRatelimit);
    let (round, action) = round.step(RoundEvent::Ratelimit { can_send: true });
    assert_eq!(action, RoundAction::SendMdn);
    let (round, action) = round.step(RoundEvent::MdnSent { more: true });
    assert_eq!(action, RoundAction::CheckRatelimit);
    let (round, action) = round.step(RoundEvent::Ratelimit { can_send: true });
    assert_eq!(action, RoundAction::SendMdn);
    let (_, action) = round.step(RoundEvent::MdnSent { more: false });
    assert_eq!(action, RoundAction::Finish);
}

#[test]
fn ratelimited_round_sends_no_receipts() {
    let (round, _) = SendRound::new();
    let (round, action) = round.step(RoundEvent::Ratelimit { can_send: false });
    assert_eq!(action, RoundAction::LoadRows);
    let (round, action) = round.step(RoundEvent::Rows(vec![4]));
    assert_eq!(action, RoundAction::SendRow(4));
    let (_, action) = round.step(RoundEvent::RowSent);
    assert_eq!(action, RoundAction::Finish);
}

#[test]
fn ratelimit_stops_receipts() {
    let (round, _) = SendRound::new();
    let (round, _) = round.step(RoundEvent::Ratelimit { can_send: true });
    let (round, _) = round.step(RoundEvent::UpdatesQueued);
    let (round, action) = round.step(RoundEvent::Rows(vec![]));
    assert_eq!(action, RoundAction::CheckRatelimit);
    let (_, action) = round.step(RoundEvent::Ratelimit { can_send: false });
    assert_eq!(action, RoundAction::Finish);
}
