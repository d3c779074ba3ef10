use relaymail::keyupdate::{
    address_keyupdate, envelope_recipients, keep_usable, keyupdate_candidates,
    keyupdate_recipients, relays_joined, schedule_keyupdate_check, Chattype, KeyupdateRecipient,
    Membership, SpecialIds, StoredContactKey, KEYUPDATE_CHUNK_CONTACTS, KEYUPDATE_MAX_RECIPIENTS,
    KEYUPDATE_MAX_SILENCE,
};
use relaymail::keyupdate_job::{KeyupdateAction, KeyupdateEvent, KeyupdateJob};
use relaymail::queue::{Encryption, PublicKey, QueuedMail};

const NOW: i64 = 1_700_000_000;

fn special() -> SpecialIds {
    SpecialIds { last_contact: 9, last_chat: 9 }
}

fn strings(list: &[&str]) -> Vec<String> {
    list.iter().map(|s| s.to_string()).collect()
}

fn public_key(name: &str) -> PublicKey {
    PublicKey { fingerprint: name.to_string(), data: vec![] }
}

fn recipient(name: &str, relays: &[&str]) -> KeyupdateRecipient {
    KeyupdateRecipient { relays: strings(relays), public_key: public_key(name) }
}

/// A contact in a single chat that was written to at `own`.
fn single(contact_id: u32, own: Option<i64>) -> Membership {
    Membership {
        contact_id,
        fingerprint: "F".to_string(),
        contact_blocked: 0,
        last_seen: 0,
        add_timestamp: 0,
        remove_timestamp: 0,
        chat_id: 100 + contact_id,
        chat_type: Chattype::Single,
        created_timestamp: NOW,
        chat_blocked: 0,
        last_own_message: own,
    }
}

/// A member of a group that was created at `created`.
fn member(contact_id: u32, chat_type: Chattype, created: i64) -> Membership {
    Membership {
        chat_id: 50,
        chat_type,
        created_timestamp: created,
        ..single(contact_id, None)
    }
}

fn candidates(rows: Vec<Membership>, now: i64, max: usize) -> Vec<u32> {
    keyupdate_candidates(&rows, special(), now, max)
}

#[test]
fn test_keyupdate_recipients() {
    let (bob, charlie, dom, elena, fiona, pqc, no_msgs) = (10, 11, 12, 13, 14, 15, 16);
    let elena_blocked = Membership {
        contact_blocked: 1,
        ..member(elena, Chattype::Group, NOW)
    };
    let fiona_unaccepted = Membership { chat_blocked: 2, last_seen: NOW, ..single(fiona, None) };
    let fiona_removed = Membership {
        last_seen: NOW,
        add_timestamp: NOW,
        remove_timestamp: NOW + 1,
        ..member(fiona, Chattype::Group, NOW)
    };
    let rows = vec![
        single(bob, Some(NOW)),
        member(charlie, Chattype::Group, NOW),
        elena_blocked,
        member(dom, Chattype::Other, NOW),
        member(pqc, Chattype::InBroadcast, NOW),
        fiona_unaccepted,
        fiona_removed,
        single(no_msgs, None),
    ];
    let chosen = candidates(rows, NOW, KEYUPDATE_MAX_RECIPIENTS);
    let keys = chosen
        .into_iter()
        .map(|id| {
            let relay = match id {
                10 => "bob@example.net",
                11 => "charlie@example.net",
                15 => "pqc@example.org",
                _ => panic!("unexpected contact {id}"),
            };
            StoredContactKey::Usable { relays: strings(&[relay]), public_key: public_key(relay) }
        })
        .collect();
    let mut recipients: Vec<String> = keyupdate_recipients(keys)
        .into_iter()
        .flat_map(|recipient| recipient.relays)
        .collect();
    recipients.sort();
    assert_eq!(recipients, ["bob@example.net", "charlie@example.net", "pqc@example.org"]);
}

#[test]
fn test_keyupdate_recipients_freshness() {
    let max = KEYUPDATE_MAX_RECIPIENTS;
    let (bob, charlie) = (10, 11);
    let rows = || vec![single(bob, Some(NOW)), member(charlie, Chattype::Group, NOW)];
    assert_eq!(candidates(rows(), NOW, max).len(), 2);

    // Contacts that showed no sign of life for years are left out.
    let later = NOW + KEYUPDATE_MAX_SILENCE + 1;
    assert!(candidates(rows(), later, max).is_empty());

    let rows = || {
        vec![
            single(bob, Some(later)),
            Membership { last_seen: later - 1000, ..member(charlie, Chattype::Group, NOW) },
        ]
    };
    assert_eq!(candidates(rows(), later, max).len(), 2);

    // Beyond the cap the freshest contacts are kept.
    assert_eq!(candidates(rows(), later, 1), [bob]);
}

#[test]
fn test_keyupdate_recipients_ephemeral() {
    let max = KEYUPDATE_MAX_RECIPIENTS;
    assert_eq!(candidates(vec![single(10, Some(NOW))], NOW, max).len(), 1);
    // The message that changed the timer is still there when the others have expired.
    assert_eq!(candidates(vec![single(10, Some(NOW))], NOW + 61, max).len(), 1);
}

#[test]
fn silence_is_counted_to_the_second() {
    let rows = || vec![single(10, Some(NOW))];
    assert_eq!(candidates(rows(), NOW + KEYUPDATE_MAX_SILENCE - 1, 5), [10]);
    assert!(candidates(rows(), NOW + KEYUPDATE_MAX_SILENCE, 5).is_empty());
    assert_eq!(candidates(rows(), i64::MIN, 5), [10]);
}

#[test]
fn freshest_chat_of_a_contact_counts() {
    let rows = vec![
        member(11, Chattype::Group, NOW - 5),
        single(10, Some(NOW - 10)),
        Membership { chat_id: 51, ..member(10, Chattype::Group, NOW - 1) },
        Membership { add_timestamp: NOW - 3, ..member(12, Chattype::Group, 0) },
    ];
    assert_eq!(candidates(rows, NOW, 10), [10, 12, 11]);
    // Special contacts and chats, and contacts without a key, do not count.
    let rows = vec![
        single(9, Some(NOW)),
        Membership { chat_id: 9, ..single(10, Some(NOW)) },
        Membership { fingerprint: String::new(), ..single(11, Some(NOW)) },
    ];
    assert!(candidates(rows, NOW, 10).is_empty());
    assert!(candidates(vec![single(10, Some(NOW))], NOW, 0).is_empty());
}

#[test]
fn unusable_keys_are_left_out() {
    let keys = vec![
        StoredContactKey::Unparsable,
        StoredContactKey::Usable { relays: strings(&["a@x"]), public_key: public_key("a") },
        StoredContactKey::CannotEncrypt,
        StoredContactKey::Usable { relays: vec![], public_key: public_key("b") },
        StoredContactKey::Usable { relays: strings(&["c@x", "c@y"]), public_key: public_key("c") },
    ];
    let kept: Vec<Vec<String>> = keep_usable(keys).into_iter().map(|r| r.relays).collect();
    assert_eq!(kept, vec![strings(&["a@x"]), strings(&["c@x", "c@y"])]);
}

#[test]
fn recipients_are_shuffled() {
    let keys = || {
        (0..200)
            .map(|i| StoredContactKey::Usable {
                relays: vec![format!("member{i}@example.net")],
                public_key: public_key("k"),
            })
            .collect()
    };
    let order: Vec<String> = keep_usable(keys()).into_iter().flat_map(|r| r.relays).collect();
    let mut shuffled: Vec<String> =
        keyupdate_recipients(keys()).into_iter().flat_map(|r| r.relays).collect();
    // With 200 contacts the order they came in practically never comes out.
    assert_ne!(shuffled, order);
    shuffled.sort();
    let mut sorted = order;
    sorted.sort();
    assert_eq!(shuffled, sorted);
}

#[test]
fn envelope_names_each_relay_once() {
    let list = vec![
        recipient("a", &["b@x", "a@x"]),
        recipient("b", &["c@x", "b@x"]),
        recipient("c", &["d@x"]),
    ];
    assert_eq!(envelope_recipients(&list, 0, 3), "a@x b@x c@x d@x");
    assert_eq!(envelope_recipients(&list, 1, 2), "b@x c@x");
    assert_eq!(envelope_recipients(&list, 2, 2), "");
}

#[test]
fn relays_are_sorted_in_the_baseline() {
    assert_eq!(relays_joined(strings(&["b@x", "a@x"])), "a@x b@x");
    assert_eq!(relays_joined(strings(&["a@x", "b@x"])), "a@x b@x");
    assert_eq!(relays_joined(vec![]), "");
}

/// Compares the relays with the baseline. `None` if nothing is to be done.
fn compare(current: &[&str], baseline: Option<&str>) -> Option<KeyupdateJob> {
    let (job, action) = KeyupdateJob::new();
    assert!(matches!(action, KeyupdateAction::GetRelays));
    let (job, action) = job.step(KeyupdateEvent::Relays {
        current: strings(current),
        baseline: baseline.map(|s| s.to_string()),
    });
    match action {
        KeyupdateAction::Finish => None,
        KeyupdateAction::FindRecipients => Some(job),
        _ => panic!("unexpected action"),
    }
}

/// A message as it is rendered: signed, and without recipients.
fn rendered(keys: Vec<PublicKey>) -> QueuedMail {
    QueuedMail {
        raw_message: vec![],
        display_name: String::new(),
        rfc724_mid: "mid".to_string(),
        encryption: Encryption::Asymmetric { encryption_pubkeys: keys },
        should_attach_pubkey: true,
        should_compress: false,
        should_sign: true,
        recipients: vec![],
        sent_to: vec![],
        bcc_self: false,
    }
}

#[test]
fn key_updates_are_not_signed() {
    let mail = address_keyupdate(rendered(vec![public_key("k")]), "a@x b@x");
    assert!(!mail.should_sign);
    assert_eq!(mail.recipients, ["a@x", "b@x"]);
    let mut expected = rendered(vec![public_key("k")]);
    expected.should_sign = false;
    expected.recipients = strings(&["a@x", "b@x"]);
    assert_eq!(mail, expected);
}

#[test]
fn silent_single_chat_does_not_count() {
    // Being added to a single chat does not make a contact a candidate, nor does its creation.
    let added = || Membership { add_timestamp: NOW, ..single(10, None) };
    assert!(candidates(vec![added()], NOW, 5).is_empty());
    assert!(candidates(vec![added()], 0, 5).is_empty());
    let seen = Membership { last_seen: NOW - 1, ..added() };
    assert_eq!(candidates(vec![seen], NOW, 5), [10]);
    let written = Membership { last_own_message: Some(NOW - 1), ..added() };
    assert_eq!(candidates(vec![written], NOW, 5), [10]);
}

#[test]
fn being_added_keeps_a_candidate_fresh() {
    let long_ago = NOW - KEYUPDATE_MAX_SILENCE - 1;
    let added = |own, seen| Membership {
        add_timestamp: NOW,
        last_seen: seen,
        ..single(10, own)
    };
    assert_eq!(candidates(vec![added(Some(long_ago), 0)], NOW, 5), [10]);
    assert_eq!(candidates(vec![added(None, long_ago)], NOW, 5), [10]);
    // That a single chat was created is no sign of life.
    assert!(candidates(vec![single(10, Some(long_ago))], NOW, 5).is_empty());

    // It also decides who is the freshest.
    let rows = vec![
        single(11, Some(NOW - 10)),
        Membership { add_timestamp: NOW, ..single(10, Some(NOW - 100)) },
    ];
    assert_eq!(candidates(rows, NOW, 1), [10]);

    // Being added to a silent single chat is a sign of life of a contact with another chat.
    let group = || member(10, Chattype::Group, long_ago);
    assert!(candidates(vec![group()], NOW, 5).is_empty());
    assert_eq!(candidates(vec![group(), added(None, 0)], NOW, 5), [10]);
    assert_eq!(candidates(vec![added(None, 0), group()], NOW, 5), [10]);
    // It is none if the contact has left that chat.
    let left = Membership { remove_timestamp: NOW + 1, ..added(None, 0) };
    assert!(candidates(vec![group(), left], NOW, 5).is_empty());
}

/// Runs a job to its end. Returns the messages and the new baseline.
fn run(job: KeyupdateJob, recipients: Vec<KeyupdateRecipient>) -> (Vec<(String, usize)>, String) {
    let mut messages = Vec::new();
    let (mut job, mut action) = job.step(KeyupdateEvent::Recipients(recipients));
    loop {
        match action {
            KeyupdateAction::Render { keys } => {
                let count = keys.len();
                (job, action) = job.step(KeyupdateEvent::Rendered(rendered(keys)));
                match action {
                    KeyupdateAction::Queue(mail) => {
                        assert!(!mail.should_sign);
                        assert_eq!(mail.rfc724_mid, "mid");
                        messages.push((mail.recipients.join(" "), count));
                    }
                    _ => panic!("unexpected action"),
                }
                (job, action) = job.step(KeyupdateEvent::Queued);
            }
            KeyupdateAction::SetBaseline(list) => {
                let (_, end) = job.step(KeyupdateEvent::BaselineSet);
                assert!(matches!(end, KeyupdateAction::Finish));
                return (messages, list);
            }
            _ => panic!("unexpected action"),
        }
    }
}

#[test]
fn test_keyupdate_trigger_dedup() {
    // No contacts yet, so this only records the baseline.
    let (sent, baseline) = run(compare(&["alice@example.org"], None).unwrap(), vec![]);
    assert!(sent.is_empty());
    assert_eq!(baseline, "alice@example.org");
    assert!(compare(&["alice@example.org"], Some(&baseline)).is_none());

    let debounce = 60;
    assert_eq!(schedule_keyupdate_check(NOW, debounce), NOW + debounce);

    // Sending is driven by the changed relay list.
    let relays = ["alice@relay.example.net", "alice@example.org"];
    let job = compare(&relays, Some(&baseline)).unwrap();
    let (sent, baseline) = run(job, vec![recipient("bob", &["bob@example.net"])]);
    assert_eq!(sent, [("bob@example.net".to_string(), 1)]);
    assert!(compare(&relays, Some(&baseline)).is_none());
}

#[test]
fn test_keyupdate_not_sent_by_synced_device() {
    // The synced device records the relays, and then knows them.
    let relays = ["alice@example.org", "alice@relay.example.net"];
    let recorded = relays_joined(strings(&relays));
    assert!(compare(&relays, Some(&recorded)).is_none());
    // The other one sends.
    assert!(compare(&relays, Some("alice@example.org")).is_some());
}

#[test]
fn test_keyupdate_on_replacement() {
    let job = compare(&["alice@relay.example.net"], Some("alice@example.org")).unwrap();
    let (sent, baseline) = run(job, vec![recipient("bob", &["bob@example.net"])]);
    assert_eq!(sent, [("bob@example.net".to_string(), 1)]);
    assert_eq!(baseline, "alice@relay.example.net");
}

#[test]
fn test_keyupdate_chunks() {
    let recipients: Vec<KeyupdateRecipient> = (0..=KEYUPDATE_CHUNK_CONTACTS)
        .map(|i| recipient("k", &[&format!("member{i}@example.net")]))
        .collect();
    assert_eq!(recipients.len(), KEYUPDATE_CHUNK_CONTACTS + 1);
    let job = compare(&["alice@relay.example.net"], Some("alice@example.org")).unwrap();
    let (sent, _) = run(job, recipients);
    assert_eq!(sent.len(), 2);
    let sets: Vec<std::collections::BTreeSet<&str>> =
        sent.iter().map(|(envelope, _)| envelope.split(' ').collect()).collect();
    let mut sizes: Vec<usize> = sets.iter().map(|set| set.len()).collect();
    sizes.sort();
    assert_eq!(sizes, [1, KEYUPDATE_CHUNK_CONTACTS]);
    assert!(sets[0].is_disjoint(&sets[1]));
    for ((_, keys), set) in sent.iter().zip(&sets) {
        assert_eq!(*keys, set.len());
    }
}

#[test]
fn full_chunks_leave_no_empty_message() {
    let recipients: Vec<KeyupdateRecipient> = (0..2 * KEYUPDATE_CHUNK_CONTACTS)
        .map(|i| recipient("k", &[&format!("member{i}@example.net")]))
        .collect();
    let (sent, _) = run(compare(&["a@x"], None).unwrap(), recipients);
    let counts: Vec<usize> = sent.into_iter().map(|(_, keys)| keys).collect();
    assert_eq!(counts, [KEYUPDATE_CHUNK_CONTACTS, KEYUPDATE_CHUNK_CONTACTS]);
}

#[test]
fn account_without_relays_and_baseline_sends_nothing() {
    assert!(compare(&[], None).is_none());
    assert!(compare(&[], Some("a@x")).is_some());
}

#[test]
fn check_is_scheduled_within_the_range_of_time() {
    assert_eq!(schedule_keyupdate_check(i64::MAX - 1, 5), i64::MAX);
    assert_eq!(schedule_keyupdate_check(i64::MIN + 1, -5), i64::MIN);
    assert_eq!(schedule_keyupdate_check(10, -3), 7);
}
