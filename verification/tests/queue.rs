use relaymail::queue::{
    enqueue_mail, load_queued_mail, ChatId, Encryption, MsgId, PublicKey, QueueError, QueueRow,
    QueuedMail, SideEffects, StoredKey,
};

fn key(fingerprint: &str) -> PublicKey {
    PublicKey { fingerprint: fingerprint.to_string(), data: vec![1, 2, 3] }
}

fn stored(fingerprint: &str) -> StoredKey {
    StoredKey { fingerprint: fingerprint.to_string(), key: Some(key(fingerprint)) }
}

fn mail(encryption: Encryption) -> QueuedMail {
    QueuedMail {
        raw_message: b"Subject: hi".to_vec(),
        display_name: "Alice".to_string(),
        rfc724_mid: "mid@localhost".to_string(),
        encryption,
        should_attach_pubkey: true,
        should_compress: false,
        should_sign: true,
        recipients: vec!["bob@example.net".to_string(), "claire@example.net".to_string()],
        sent_to: vec!["old@example.net".to_string()],
        bcc_self: true,
    }
}

fn row(is_encrypted: bool, secret: &str, fingerprints: &str) -> QueueRow {
    QueueRow {
        display_name: "Alice".to_string(),
        rfc724_mid: "mid@localhost".to_string(),
        mime: vec![],
        should_attach_pubkey: false,
        should_compress: true,
        should_sign: false,
        msg_id: MsgId(7),
        recipients: "a@b c@d".to_string(),
        sent_to: "a@b".to_string(),
        bcc_self: false,
        is_encrypted,
        shared_secret: secret.to_string(),
        encryption_fingerprints: fingerprints.to_string(),
    }
}

#[test]
fn encryption_tells_whether_it_encrypts() {
    assert!(!Encryption::No.is_encrypted());
    assert!(Encryption::Asymmetric { encryption_pubkeys: vec![] }.is_encrypted());
    assert!(Encryption::Symmetric { shared_secret: "s".to_string() }.is_encrypted());
}

#[test]
fn side_effects_are_none_by_default() {
    let effects = SideEffects::default();
    assert_eq!(effects.chat_id, ChatId(0));
    assert_eq!(effects.last_added_location_timestamp, None);
    assert!(!effects.avatar_is_attached);
    assert_eq!(effects.sync_ids_to_delete, None);
    assert_eq!(effects.subject, "");
}

#[test]
fn columns_of_a_queued_message() {
    let encryption =
        Encryption::Asymmetric { encryption_pubkeys: vec![key("AB"), key("CD")] };
    let plan = enqueue_mail(100, MsgId(5), &mail(encryption), None);
    assert_eq!(plan.row.msg_id, MsgId(5));
    assert_eq!(plan.row.display_name, "Alice");
    assert_eq!(plan.row.rfc724_mid, "mid@localhost");
    assert_eq!(plan.row.mime, b"Subject: hi");
    assert_eq!(plan.row.recipients, "bob@example.net claire@example.net");
    assert_eq!(plan.row.sent_to, "");
    assert_eq!(plan.row.shared_secret, "");
    assert_eq!(plan.row.encryption_fingerprints, "AB CD");
    assert!(plan.row.is_encrypted);
    assert!(plan.row.bcc_self);
    assert!(plan.row.should_attach_pubkey);
    assert!(!plan.row.should_compress);
    assert!(plan.row.should_sign);
    assert!(plan.locations_last_sent.is_none());
    assert!(plan.selfavatar_timestamp.is_none());
    assert!(plan.delete_sync_items.is_none());
}

#[test]
fn side_effects_of_queueing() {
    let effects = SideEffects {
        chat_id: ChatId(12),
        last_added_location_timestamp: Some(55),
        avatar_is_attached: true,
        sync_ids_to_delete: Some("1,2".to_string()),
        subject: "x".to_string(),
    };
    let plan = enqueue_mail(100, MsgId(5), &mail(Encryption::No), Some(&effects));
    assert_eq!(plan.locations_last_sent, Some((ChatId(12), 55)));
    assert_eq!(plan.selfavatar_timestamp, Some((ChatId(12), 100)));
    assert_eq!(
        plan.delete_sync_items.as_deref(),
        Some("DELETE FROM multi_device_sync WHERE id IN (1,2)")
    );
    assert!(!plan.row.is_encrypted);
}

#[test]
fn queued_mail_is_loaded_back() {
    for encryption in [
        Encryption::No,
        Encryption::Symmetric { shared_secret: "secret".to_string() },
        Encryption::Asymmetric { encryption_pubkeys: vec![] },
        Encryption::Asymmetric { encryption_pubkeys: vec![key("AB"), key("CD")] },
    ] {
        let queued = mail(encryption);
        let plan = enqueue_mail(100, MsgId(5), &queued, None);
        let keys = vec![stored("CD"), stored("XX"), stored("AB")];
        let loaded = load_queued_mail(plan.row, &keys).unwrap();
        let mut expected = queued.clone();
        expected.sent_to.clear();
        assert_eq!(loaded, expected);
    }
}

#[test]
fn empty_secret_does_not_survive() {
    let queued = mail(Encryption::Symmetric { shared_secret: String::new() });
    let plan = enqueue_mail(100, MsgId(5), &queued, None);
    let loaded = load_queued_mail(plan.row, &vec![]).unwrap();
    assert_eq!(loaded.encryption, Encryption::Asymmetric { encryption_pubkeys: vec![] });
}

#[test]
fn loaded_lists_are_split() {
    let loaded = load_queued_mail(row(false, "", ""), &vec![]).unwrap();
    assert_eq!(loaded.recipients, ["a@b", "c@d"]);
    assert_eq!(loaded.sent_to, ["a@b"]);
    assert_eq!(loaded.encryption, Encryption::No);
}

#[test]
fn unknown_keys_are_left_out() {
    let loaded = load_queued_mail(row(true, "", "AB CD"), &vec![stored("CD")]).unwrap();
    assert_eq!(
        loaded.encryption,
        Encryption::Asymmetric { encryption_pubkeys: vec![key("CD")] }
    );
}

#[test]
fn unreadable_key_is_an_error() {
    let keys = vec![StoredKey { fingerprint: "AB".to_string(), key: None }];
    assert_eq!(
        load_queued_mail(row(true, "", "AB CD"), &keys).err(),
        Some(QueueError::UnreadableKey)
    );
    // A key that is not needed does not matter.
    assert!(load_queued_mail(row(true, "", "CD"), &keys).is_ok());
}

#[test]
fn contradicting_columns_are_an_error() {
    for (encrypted, secret, fingerprints) in
        [(false, "s", ""), (false, "", "AB"), (false, "s", "AB"), (true, "s", "AB")]
    {
        assert_eq!(
            load_queued_mail(row(encrypted, secret, fingerprints), &vec![]).err(),
            Some(QueueError::InvalidEncryption)
        );
    }
    assert!(load_queued_mail(row(true, "s", ""), &vec![]).is_ok());
}
