//! The SMTP queue: mail that waits to be sent, as it is kept in the `smtp2` table.

use vstd::prelude::*;

use crate::text;

verus! {

/// Identifier of a chat.
#[derive(Clone, Copy, Debug, PartialEq, Eq, Structural)]
pub struct ChatId(pub u32);

/// Identifier of a message.
#[derive(Clone, Copy, Debug, PartialEq, Eq, Structural)]
pub struct MsgId(pub u32);

/// An OpenPGP public key.
#[derive(Debug, PartialEq, Eq)]
pub struct PublicKey {
    /// Fingerprint in hexadecimal notation.
    pub fingerprint: String,
    /// The serialized key.
    pub data: Vec<u8>,
}

/// Whether and how a message is encrypted.
#[derive(Clone, Debug, PartialEq, Eq)]
pub enum Encryption {
    /// Unencrypted message.
    No,
    /// The message is encrypted to public keys.
    Asymmetric {
        /// Keys to encrypt to. The own key is always used and not listed.
        encryption_pubkeys: Vec<PublicKey>,
    },
    /// The message is encrypted with a shared secret.
    Symmetric { shared_secret: String },
}

impl Encryption {
    /// Whether the message is encrypted.
    pub fn is_encrypted(&self) -> (r: bool)
        ensures
            r == !(self is No),
    {
        match self {
            Encryption::No => false,
            Encryption::Asymmetric { .. } => true,
            Encryption::Symmetric { .. } => true,
        }
    }
}

/// Mail that is queued, but not sent yet. It is kept unencrypted, so that its protected headers
/// can still change.
#[derive(Clone, Debug, PartialEq, Eq)]
pub struct QueuedMail {
    /// Headers and body, without the From, Autocrypt and Message-ID headers.
    pub raw_message: Vec<u8>,
    /// Display name for the From header.
    pub display_name: String,
    /// Message-ID.
    pub rfc724_mid: String,
    /// Encryption and its keys.
    pub encryption: Encryption,
    /// Whether to add an Autocrypt header.
    pub should_attach_pubkey: bool,
    /// Whether compression may be used.
    pub should_compress: bool,
    /// Whether the encrypted message is signed.
    pub should_sign: bool,
    /// Recipient addresses.
    pub recipients: Vec<String>,
    /// Addresses that the message was already sent to.
    pub sent_to: Vec<String>,
    /// Whether own addresses are added to the recipients.
    pub bcc_self: bool,
}

/// Side effects to be applied together with queueing a message.
#[derive(Clone, Debug, PartialEq, Eq)]
pub struct SideEffects {
    /// The chat that the side effects concern.
    pub chat_id: ChatId,
    /// Largest timestamp of the locations that are sent with the message.
    pub last_added_location_timestamp: Option<i64>,
    /// Whether the message has the avatar attached.
    pub avatar_is_attached: bool,
    /// Comma-separated identifiers of the sync items that the message holds, which are to be
    /// deleted once it is queued.
    pub sync_ids_to_delete: Option<String>,
    /// Subject of the message.
    pub subject: String,
}

impl Default for SideEffects {
    fn default() -> (r: SideEffects)
        ensures
            r.chat_id == ChatId(0),
            r.last_added_location_timestamp is None,
            !r.avatar_is_attached,
            r.sync_ids_to_delete is None,
            r.subject@ == Seq::<char>::empty(),
    {
        SideEffects {
            chat_id: ChatId(0),
            last_added_location_timestamp: None,
            avatar_is_attached: false,
            sync_ids_to_delete: None,
            subject: String::new(),
        }
    }
}

/// A row of the `smtp2` table.
pub struct QueueRow {
    pub display_name: String,
    pub rfc724_mid: String,
    pub mime: Vec<u8>,
    pub should_attach_pubkey: bool,
    pub should_compress: bool,
    pub should_sign: bool,
    pub msg_id: MsgId,
    /// Recipients with spaces between them.
    pub recipients: String,
    /// Addresses that the message was sent to, with spaces between them. Empty in a new row.
    pub sent_to: String,
    pub bcc_self: bool,
    pub is_encrypted: bool,
    pub shared_secret: String,
    /// Fingerprints of the encryption keys with spaces between them.
    pub encryption_fingerprints: String,
}

/// What has to be written to queue a message.
pub struct Enqueue {
    /// The chat whose `locations_last_sent` is set, and the value.
    pub locations_last_sent: Option<(ChatId, i64)>,
    /// The chat whose avatar timestamp is set, and the value.
    pub selfavatar_timestamp: Option<(ChatId, i64)>,
    /// The statement that deletes sync items.
    pub delete_sync_items: Option<String>,
    /// The new row of the queue.
    pub row: QueueRow,
}

/// A row of the `public_keys` table; `key` is `None` if the stored bytes are no key.
pub struct StoredKey {
    pub fingerprint: String,
    pub key: Option<PublicKey>,
}

/// Why a row of the queue cannot be loaded.
#[derive(Clone, Copy, Debug, PartialEq, Eq, Structural)]
pub enum QueueError {
    /// The columns on encryption contradict each other.
    InvalidEncryption,
    /// A stored public key cannot be parsed.
    UnreadableKey,
}

// ---------------------------------------------------------------------------
// The model
// ---------------------------------------------------------------------------

/// A public key.
pub struct Key {
    pub fingerprint: Seq<char>,
    pub data: Seq<u8>,
}

/// Encryption and its keys.
pub enum Secrecy {
    No,
    Asymmetric(Seq<Key>),
    Symmetric(Seq<char>),
}

/// A queued message.
pub struct Mail {
    pub raw_message: Seq<u8>,
    pub display_name: Seq<char>,
    pub rfc724_mid: Seq<char>,
    pub encryption: Secrecy,
    pub should_attach_pubkey: bool,
    pub should_compress: bool,
    pub should_sign: bool,
    pub recipients: Seq<Seq<char>>,
    pub sent_to: Seq<Seq<char>>,
    pub bcc_self: bool,
}

/// The columns of a queued message.
pub struct Columns {
    pub display_name: Seq<char>,
    pub rfc724_mid: Seq<char>,
    pub mime: Seq<u8>,
    pub should_attach_pubkey: bool,
    pub should_compress: bool,
    pub should_sign: bool,
    pub recipients: Seq<char>,
    pub sent_to: Seq<char>,
    pub bcc_self: bool,
    pub is_encrypted: bool,
    pub shared_secret: Seq<char>,
    pub encryption_fingerprints: Seq<char>,
}

impl View for PublicKey {
    type V = Key;

    open spec fn view(&self) -> Key {
        Key { fingerprint: self.fingerprint@, data: self.data@ }
    }
}

/// The keys of a list.
pub open spec fn keys_of(keys: Seq<PublicKey>) -> Seq<Key> {
    keys.map_values(|k: PublicKey| k@)
}

impl View for Encryption {
    type V = Secrecy;

    open spec fn view(&self) -> Secrecy {
        match self {
            Encryption::No => Secrecy::No,
            Encryption::Asymmetric { encryption_pubkeys } => Secrecy::Asymmetric(
                keys_of(encryption_pubkeys@),
            ),
            Encryption::Symmetric { shared_secret } => Secrecy::Symmetric(shared_secret@),
        }
    }
}

impl View for QueuedMail {
    type V = Mail;

    open spec fn view(&self) -> Mail {
        Mail {
            raw_message: self.raw_message@,
            display_name: self.display_name@,
            rfc724_mid: self.rfc724_mid@,
            encryption: self.encryption@,
            should_attach_pubkey: self.should_attach_pubkey,
            should_compress: self.should_compress,
            should_sign: self.should_sign,
            recipients: text::texts(self.recipients@),
            sent_to: text::texts(self.sent_to@),
            bcc_self: self.bcc_self,
        }
    }
}

impl View for QueueRow {
    type V = Columns;

    open spec fn view(&self) -> Columns {
        Columns {
            display_name: self.display_name@,
            rfc724_mid: self.rfc724_mid@,
            mime: self.mime@,
            should_attach_pubkey: self.should_attach_pubkey,
            should_compress: self.should_compress,
            should_sign: self.should_sign,
            recipients: self.recipients@,
            sent_to: self.sent_to@,
            bcc_self: self.bcc_self,
            is_encrypted: self.is_encrypted,
            shared_secret: self.shared_secret@,
            encryption_fingerprints: self.encryption_fingerprints@,
        }
    }
}

/// The fingerprints of some keys.
pub open spec fn fingerprints(keys: Seq<Key>) -> Seq<Seq<char>> {
    keys.map_values(|k: Key| k.fingerprint)
}

/// The columns of a message that is queued now, and so not sent to anybody yet.
pub open spec fn stored_mail(m: Mail) -> Columns {
    Columns {
        display_name: m.display_name,
        rfc724_mid: m.rfc724_mid,
        mime: m.raw_message,
        should_attach_pubkey: m.should_attach_pubkey,
        should_compress: m.should_compress,
        should_sign: m.should_sign,
        recipients: text::joined(m.recipients, " "@),
        sent_to: Seq::empty(),
        bcc_self: m.bcc_self,
        is_encrypted: !(m.encryption is No),
        shared_secret: match m.encryption {
            Secrecy::Symmetric(secret) => secret,
            _ => Seq::empty(),
        },
        encryption_fingerprints: match m.encryption {
            Secrecy::Asymmetric(keys) => text::joined(fingerprints(keys), " "@),
            _ => Seq::empty(),
        },
    }
}

/// What the first row for a fingerprint holds: nothing if there is no row, `Some(None)` if its
/// bytes are no key.
pub open spec fn stored_key(rows: Seq<StoredKey>, fingerprint: Seq<char>) -> Option<Option<Key>>
    decreases rows.len(),
{
    if rows.len() == 0 {
        None
    } else if rows.first().fingerprint@ == fingerprint {
        Some(
            match rows.first().key {
                Some(k) => Some(k@),
                None => None,
            },
        )
    } else {
        stored_key(rows.drop_first(), fingerprint)
    }
}

/// The stored keys for some fingerprints, in their order; those without a key are left out.
pub open spec fn stored_keys(rows: Seq<StoredKey>, wanted: Seq<Seq<char>>) -> Seq<Key>
    decreases wanted.len(),
{
    if wanted.len() == 0 {
        Seq::empty()
    } else {
        let before = stored_keys(rows, wanted.drop_last());
        match stored_key(rows, wanted.last()) {
            Some(Some(key)) => before.push(key),
            _ => before,
        }
    }
}

/// Whether no row for the fingerprints is unreadable.
pub open spec fn keys_readable(rows: Seq<StoredKey>, wanted: Seq<Seq<char>>) -> bool {
    forall|i: int|
        0 <= i < wanted.len() ==> stored_key(rows, #[trigger] wanted[i]) != Some(None::<Key>)
}

/// Encryption as the columns tell it: `None` if they contradict each other.
pub open spec fn stored_encryption(c: Columns, rows: Seq<StoredKey>) -> Option<Secrecy> {
    let wanted = text::stored_list(c.encryption_fingerprints);
    if c.is_encrypted && c.shared_secret.len() == 0 {
        Some(Secrecy::Asymmetric(stored_keys(rows, wanted)))
    } else if c.is_encrypted && wanted.len() == 0 {
        Some(Secrecy::Symmetric(c.shared_secret))
    } else if !c.is_encrypted && c.shared_secret.len() == 0 && wanted.len() == 0 {
        Some(Secrecy::No)
    } else {
        None
    }
}

/// The message that the columns describe, with encryption as given.
pub open spec fn loaded_mail(c: Columns, encryption: Secrecy) -> Mail {
    Mail {
        raw_message: c.mime,
        display_name: c.display_name,
        rfc724_mid: c.rfc724_mid,
        encryption,
        should_attach_pubkey: c.should_attach_pubkey,
        should_compress: c.should_compress,
        should_sign: c.should_sign,
        recipients: text::stored_list(c.recipients),
        sent_to: text::stored_list(c.sent_to),
        bcc_self: c.bcc_self,
    }
}

// ---------------------------------------------------------------------------
// Operations
// ---------------------------------------------------------------------------

/// Determines what has to be written to queue `queued_mail` at the time `now`.
pub fn enqueue_mail(
    now: i64,
    msg_id: MsgId,
    queued_mail: &QueuedMail,
    side_effects: Option<&SideEffects>,
) -> (r: Enqueue)
    ensures
        r.row@ == stored_mail(queued_mail@),
        r.row.msg_id == msg_id,
        r.locations_last_sent == match side_effects {
            Some(e) => match e.last_added_location_timestamp {
                Some(timestamp) => Some((e.chat_id, timestamp)),
                None => None,
            },
            None => None,
        },
        r.selfavatar_timestamp == match side_effects {
            Some(e) => if e.avatar_is_attached {
                Some((e.chat_id, now))
            } else {
                None
            },
            None => None,
        },
        match side_effects {
            Some(e) => match e.sync_ids_to_delete {
                Some(ids) => r.delete_sync_items is Some && r.delete_sync_items->0@
                    == "DELETE FROM multi_device_sync WHERE id IN ("@ + ids@ + ")"@,
                None => r.delete_sync_items is None,
            },
            None => r.delete_sync_items is None,
        },
{
    let mut locations_last_sent: Option<(ChatId, i64)> = None;
    let mut selfavatar_timestamp: Option<(ChatId, i64)> = None;
    let mut delete_sync_items: Option<String> = None;
    if let Some(effects) = side_effects {
        if let Some(timestamp) = effects.last_added_location_timestamp {
            locations_last_sent = Some((effects.chat_id, timestamp));
        }
        if effects.avatar_is_attached {
            selfavatar_timestamp = Some((effects.chat_id, now));
        }
        if let Some(ids) = &effects.sync_ids_to_delete {
            let mut statement = "DELETE FROM multi_device_sync WHERE id IN (".to_owned();
            statement.append(ids.as_str());
            statement.append(")");
            delete_sync_items = Some(statement);
        }
    }
    let shared_secret = match &queued_mail.encryption {
        Encryption::Symmetric { shared_secret } => shared_secret.clone(),
        _ => String::new(),
    };
    let encryption_fingerprints = match &queued_mail.encryption {
        Encryption::Asymmetric { encryption_pubkeys } => {
            let mut list: Vec<String> = Vec::new();
            for i in 0..encryption_pubkeys.len()
                invariant
                    list@.len() == i,
                    forall|j: int|
                        0 <= j < i ==> (#[trigger] list@[j])@
                            == encryption_pubkeys@[j].fingerprint@,
            {
                list.push(encryption_pubkeys[i].fingerprint.clone());
            }
            assert(text::texts(list@) =~= fingerprints(keys_of(encryption_pubkeys@)));
            text::join(&list, " ")
        },
        _ => String::new(),
    };
    let row = QueueRow {
        display_name: queued_mail.display_name.clone(),
        rfc724_mid: queued_mail.rfc724_mid.clone(),
        mime: queued_mail.raw_message.clone(),
        should_attach_pubkey: queued_mail.should_attach_pubkey,
        should_compress: queued_mail.should_compress,
        should_sign: queued_mail.should_sign,
        msg_id,
        recipients: text::join(&queued_mail.recipients, " "),
        sent_to: String::new(),
        bcc_self: queued_mail.bcc_self,
        is_encrypted: queued_mail.encryption.is_encrypted(),
        shared_secret,
        encryption_fingerprints,
    };
    assert(row.mime@ =~= queued_mail.raw_message@);
    Enqueue { locations_last_sent, selfavatar_timestamp, delete_sync_items, row }
}

fn find_key<'a>(rows: &'a Vec<StoredKey>, fingerprint: &str) -> (r: Option<&'a StoredKey>)
    ensures
        match r {
            Some(row) => stored_key(rows@, fingerprint@) == Some(
                match row.key {
                    Some(k) => Some(k@),
                    None => None,
                },
            ),
            None => stored_key(rows@, fingerprint@) is None,
        },
{
    assert(rows@.skip(0) =~= rows@);
    for i in 0..rows.len()
        invariant
            stored_key(rows@, fingerprint@) == stored_key(rows@.skip(i as int), fingerprint@),
    {
        assert(rows@.skip(i as int).drop_first() =~= rows@.skip(i + 1));
        if text::same_text(rows[i].fingerprint.as_str(), fingerprint) {
            return Some(&rows[i]);
        }
    }
    None
}

impl Clone for PublicKey {
    fn clone(&self) -> (r: PublicKey)
        ensures
            r@ == self@,
    {
        let r = PublicKey { fingerprint: self.fingerprint.clone(), data: self.data.clone() };
        assert(r.data@ =~= self.data@);
        r
    }
}

/// Loads a queued message. `public_keys` are the rows of the key table for the fingerprints of
/// the message.
pub fn load_queued_mail(row: QueueRow, public_keys: &Vec<StoredKey>) -> (r: Result<
    QueuedMail,
    QueueError,
>)
    ensures
        ({
            let encryption = stored_encryption(row@, public_keys@);
            let readable = encryption matches Some(Secrecy::Asymmetric(_)) ==> keys_readable(
                public_keys@,
                text::stored_list(row@.encryption_fingerprints),
            );
            match r {
                Ok(mail) => {
                    &&& encryption is Some
                    &&& readable
                    &&& mail@ == loaded_mail(row@, encryption->0)
                },
                Err(QueueError::InvalidEncryption) => encryption is None,
                Err(QueueError::UnreadableKey) => encryption is Some && !readable,
            }
        }),
{
    let wanted = text::load_list(row.encryption_fingerprints.as_str());
    let recipients = text::load_list(row.recipients.as_str());
    let sent_to = text::load_list(row.sent_to.as_str());
    let ghost list = text::texts(wanted@);
    let secret_empty = row.shared_secret.as_str().is_empty();
    let encryption = if row.is_encrypted && secret_empty {
        let mut keys: Vec<PublicKey> = Vec::new();
        assert(keys_of(keys@) =~= Seq::<Key>::empty());
        assert(list.take(0) =~= Seq::<Seq<char>>::empty());
        for i in 0..wanted.len()
            invariant
                list == text::texts(wanted@),
                list == text::stored_list(row@.encryption_fingerprints),
                row@.is_encrypted && row@.shared_secret.len() == 0,
                keys_readable(public_keys@, list.take(i as int)),
                keys_of(keys@) == stored_keys(public_keys@, list.take(i as int)),
        {
            proof {
                assert(list[i as int] == wanted@[i as int]@);
                assert(list.take(i + 1).drop_last() =~= list.take(i as int));
                assert(list.take(i + 1).last() == list[i as int]);
            }
            match find_key(public_keys, wanted[i].as_str()) {
                Some(found) => match &found.key {
                    Some(key) => {
                        let ghost before = keys@;
                        keys.push(key.clone());
                        assert(keys_of(keys@) =~= keys_of(before).push(key@));
                        assert forall|j: int| 0 <= j < i + 1 implies stored_key(
                            public_keys@,
                            #[trigger] list.take(i + 1)[j],
                        ) != Some(None::<Key>) by {
                            assert(j < i ==> list.take(i + 1)[j] == list.take(i as int)[j]);
                        }
                    },
                    None => {
                        assert(stored_key(public_keys@, list[i as int]) == Some(None::<Key>));
                        return Err(QueueError::UnreadableKey);
                    },
                },
                None => {
                    assert forall|j: int| 0 <= j < i + 1 implies stored_key(
                        public_keys@,
                        #[trigger] list.take(i + 1)[j],
                    ) != Some(None::<Key>) by {
                        assert(j < i ==> list.take(i + 1)[j] == list.take(i as int)[j]);
                    }
                },
            }
        }
        assert(list.take(list.len() as int) =~= list);
        Encryption::Asymmetric { encryption_pubkeys: keys }
    } else if row.is_encrypted && wanted.len() == 0 {
        Encryption::Symmetric { shared_secret: row.shared_secret }
    } else if !row.is_encrypted && secret_empty && wanted.len() == 0 {
        Encryption::No
    } else {
        return Err(QueueError::InvalidEncryption);
    };
    Ok(
        QueuedMail {
            raw_message: row.mime,
            display_name: row.display_name,
            rfc724_mid: row.rfc724_mid,
            encryption,
            should_attach_pubkey: row.should_attach_pubkey,
            should_compress: row.should_compress,
            should_sign: row.should_sign,
            recipients,
            sent_to,
            bcc_self: row.bcc_self,
        },
    )
}

/// Whether a message survives the queue: its addresses and fingerprints can be told apart when
/// they are joined, its keys are stored, and a shared secret is not empty.
pub open spec fn survives(m: Mail, rows: Seq<StoredKey>) -> bool {
    &&& text::storable(m.recipients)
    &&& match m.encryption {
        Secrecy::No => true,
        Secrecy::Asymmetric(keys) => {
            &&& text::storable(fingerprints(keys))
            &&& forall|i: int|
                0 <= i < keys.len() ==> stored_key(rows, (#[trigger] keys[i]).fingerprint) == Some(
                    Some(keys[i]),
                )
        },
        Secrecy::Symmetric(secret) => secret.len() > 0,
    }
}

proof fn lemma_stored_keys(rows: Seq<StoredKey>, keys: Seq<Key>)
    requires
        forall|i: int|
            0 <= i < keys.len() ==> stored_key(rows, (#[trigger] keys[i]).fingerprint) == Some(
                Some(keys[i]),
            ),
    ensures
        stored_keys(rows, fingerprints(keys)) == keys,
        keys_readable(rows, fingerprints(keys)),
    decreases keys.len(),
{
    if keys.len() > 0 {
        lemma_stored_keys(rows, keys.drop_last());
        assert(fingerprints(keys).drop_last() =~= fingerprints(keys.drop_last()));
        assert(fingerprints(keys).last() == keys.last().fingerprint);
        assert(keys =~= keys.drop_last().push(keys.last()));
        assert forall|i: int| 0 <= i < keys.len() implies stored_key(
            rows,
            #[trigger] fingerprints(keys)[i],
        ) != Some(None::<Key>) by {
            assert(fingerprints(keys)[i] == keys[i].fingerprint);
        }
    }
}

/// A message that is queued and loaded again is the same message, not yet sent to anybody.
pub proof fn law_queued_mail_is_loaded_back(m: Mail, rows: Seq<StoredKey>)
    requires
        survives(m, rows),
    ensures
        stored_encryption(stored_mail(m), rows) == Some(m.encryption),
        m.encryption is Asymmetric ==> keys_readable(
            rows,
            text::stored_list(stored_mail(m).encryption_fingerprints),
        ),
        loaded_mail(stored_mail(m), m.encryption) == (Mail { sent_to: Seq::empty(), ..m }),
{
    reveal_strlit(" ");
    assert(" "@ =~= seq![' ']);
    text::lemma_stored_list_round_trip(m.recipients);
    match m.encryption {
        Secrecy::Asymmetric(keys) => {
            text::lemma_stored_list_round_trip(fingerprints(keys));
            lemma_stored_keys(rows, keys);
        },
        _ => {},
    }
    assert(text::stored_list(Seq::empty()) =~= Seq::<Seq<char>>::empty());
}

/// The row of a message that is queued has the fields of the message in their columns, and says
/// that it was sent to nobody.
pub proof fn law_row_has_the_fields_of_the_mail(mail: QueuedMail, row: QueueRow)
    requires
        row@ == stored_mail(mail@),
    ensures
        row.display_name@ == mail.display_name@,
        row.rfc724_mid@ == mail.rfc724_mid@,
        row.mime@ == mail.raw_message@,
        row.should_attach_pubkey == mail.should_attach_pubkey,
        row.should_compress == mail.should_compress,
        row.should_sign == mail.should_sign,
        row.bcc_self == mail.bcc_self,
        row.sent_to@.len() == 0,
        row.recipients@ == text::joined(text::texts(mail.recipients@), " "@),
        match mail.encryption {
            Encryption::No => !row.is_encrypted && row.shared_secret@.len() == 0
                && row.encryption_fingerprints@.len() == 0,
            Encryption::Symmetric { shared_secret } => row.is_encrypted && row.shared_secret@
                == shared_secret@ && row.encryption_fingerprints@.len() == 0,
            Encryption::Asymmetric { encryption_pubkeys } => row.is_encrypted
                && row.shared_secret@.len() == 0 && row.encryption_fingerprints@ == text::joined(
                Seq::new(
                    encryption_pubkeys@.len(),
                    |i: int| encryption_pubkeys@[i].fingerprint@,
                ),
                " "@,
            ),
        },
{
    if let Encryption::Asymmetric { encryption_pubkeys } = mail.encryption {
        assert(fingerprints(keys_of(encryption_pubkeys@)) =~= Seq::new(
            encryption_pubkeys@.len(),
            |i: int| encryption_pubkeys@[i].fingerprint@,
        ));
    }
}

/// A message that is loaded has the columns of its row in its fields.
pub proof fn law_loaded_mail_has_the_columns_of_the_row(
    row: QueueRow,
    encryption: Secrecy,
    mail: QueuedMail,
)
    requires
        mail@ == loaded_mail(row@, encryption),
    ensures
        mail.display_name@ == row.display_name@,
        mail.rfc724_mid@ == row.rfc724_mid@,
        mail.raw_message@ == row.mime@,
        mail.should_attach_pubkey == row.should_attach_pubkey,
        mail.should_compress == row.should_compress,
        mail.should_sign == row.should_sign,
        mail.bcc_self == row.bcc_self,
        text::texts(mail.recipients@) == text::stored_list(row.recipients@),
        text::texts(mail.sent_to@) == text::stored_list(row.sent_to@),
        encryption is No <==> mail.encryption is No,
        encryption is Symmetric <==> mail.encryption is Symmetric,
        mail.encryption matches Encryption::Symmetric { shared_secret } ==> encryption
            == Secrecy::Symmetric(shared_secret@),
        mail.encryption matches Encryption::Asymmetric { encryption_pubkeys } ==> {
            &&& encryption->Asymmetric_0.len() == encryption_pubkeys@.len()
            &&& forall|i: int|
                0 <= i < encryption_pubkeys@.len() ==> {
                    &&& (#[trigger] encryption->Asymmetric_0[i]).fingerprint
                        == encryption_pubkeys@[i].fingerprint@
                    &&& encryption->Asymmetric_0[i].data == encryption_pubkeys@[i].data@
                }
        },
{
}

/// The columns on encryption fit together exactly if at most one of the secret and the
/// fingerprints is there, and neither is unless the message is encrypted. A secret stands for
/// symmetric encryption; an encrypted message without one is encrypted to the stored keys, be
/// there any or not.
pub proof fn law_columns_on_encryption(c: Columns, rows: Seq<StoredKey>)
    ensures
        ({
            let secret = c.shared_secret.len() > 0;
            let keys = c.encryption_fingerprints.len() > 0;
            match stored_encryption(c, rows) {
                None => if c.is_encrypted {
                    secret && keys
                } else {
                    secret || keys
                },
                Some(Secrecy::No) => !c.is_encrypted && !secret && !keys,
                Some(Secrecy::Symmetric(s)) => c.is_encrypted && secret && !keys && s
                    == c.shared_secret,
                Some(Secrecy::Asymmetric(list)) => c.is_encrypted && !secret && list == stored_keys(
                    rows,
                    text::stored_list(c.encryption_fingerprints),
                ),
            }
        }),
{
    text::lemma_pieces_nonempty(c.encryption_fingerprints, ' ');
}

/// Of a fingerprint the first row counts, and nothing is found exactly if there is no row for it.
pub proof fn law_first_row_of_a_fingerprint_counts(rows: Seq<StoredKey>, fingerprint: Seq<char>)
    ensures
        match stored_key(rows, fingerprint) {
            None => forall|i: int|
                0 <= i < rows.len() ==> (#[trigger] rows[i]).fingerprint@ != fingerprint,
            Some(found) => exists|i: int|
                0 <= i < rows.len() && (#[trigger] rows[i]).fingerprint@ == fingerprint
                    && rows[i].key is Some == found is Some && (found is Some ==> rows[i].key->0@
                    == found->0) && forall|j: int|
                    0 <= j < i ==> (#[trigger] rows[j]).fingerprint@ != fingerprint,
        },
    decreases rows.len(),
{
    if rows.len() > 0 {
        let rest = rows.drop_first();
        assert(rows[0] == rows.first());
        if rows.first().fingerprint@ != fingerprint {
            law_first_row_of_a_fingerprint_counts(rest, fingerprint);
            assert forall|i: int| 0 < i < rows.len() implies #[trigger] rows[i] == rest[i - 1] by {}
            if let Some(found) = stored_key(rows, fingerprint) {
                let i = choose|i: int|
                    0 <= i < rest.len() && (#[trigger] rest[i]).fingerprint@ == fingerprint
                        && rest[i].key is Some == found is Some && (found is Some
                        ==> rest[i].key->0@ == found->0) && forall|j: int|
                        0 <= j < i ==> (#[trigger] rest[j]).fingerprint@ != fingerprint;
                assert(rows[i + 1] == rest[i]);
                assert forall|j: int| 0 <= j < i + 1 implies (#[trigger] rows[j]).fingerprint@
                    != fingerprint by {
                    if j > 0 {
                        assert(rows[j] == rest[j - 1]);
                    }
                }
            }
        }
    }
}

/// The keys are in the order of their fingerprints, and each fingerprint gives its key or none,
/// whatever comes before or after.
pub proof fn law_stored_keys_keep_their_order(
    rows: Seq<StoredKey>,
    a: Seq<Seq<char>>,
    b: Seq<Seq<char>>,
    x: Seq<char>,
)
    ensures
        stored_keys(rows, a + b) == stored_keys(rows, a) + stored_keys(rows, b),
        stored_keys(rows, seq![x]) == match stored_key(rows, x) {
            Some(Some(key)) => seq![key],
            _ => Seq::empty(),
        },
    decreases b.len(),
{
    reveal_with_fuel(stored_keys, 2);
    assert(seq![x].drop_last() =~= Seq::<Seq<char>>::empty());
    assert(seq![x].last() == x);
    assert(Seq::<Key>::empty().push(stored_key(rows, x)->0->0) =~= seq![stored_key(rows, x)->0->0]);
    if b.len() == 0 {
        assert(a + b =~= a);
        assert(stored_keys(rows, a) + stored_keys(rows, b) =~= stored_keys(rows, a));
    } else {
        law_stored_keys_keep_their_order(rows, a, b.drop_last(), x);
        assert((a + b).drop_last() =~= a + b.drop_last());
        assert((a + b).last() == b.last());
        assert(stored_keys(rows, a + b) =~= stored_keys(rows, a) + stored_keys(rows, b));
    }
}

/// A message cannot be loaded exactly if the first row of one of its fingerprints holds no key;
/// a fingerprint without a row does no harm.
pub proof fn law_one_unreadable_key_is_enough(rows: Seq<StoredKey>, wanted: Seq<Seq<char>>)
    ensures
        !keys_readable(rows, wanted) <==> exists|k: int, i: int|
            0 <= k < wanted.len() && 0 <= i < rows.len() && (#[trigger] rows[i]).fingerprint@ == (
            #[trigger] wanted[k]) && rows[i].key is None && forall|j: int|
                0 <= j < i ==> (#[trigger] rows[j]).fingerprint@ != wanted[k],
{
    if !keys_readable(rows, wanted) {
        let k = choose|k: int|
            0 <= k < wanted.len() && stored_key(rows, #[trigger] wanted[k]) == Some(None::<Key>);
        law_first_row_of_a_fingerprint_counts(rows, wanted[k]);
    }
    if exists|k: int, i: int|
        0 <= k < wanted.len() && 0 <= i < rows.len() && (#[trigger] rows[i]).fingerprint@ == (
        #[trigger] wanted[k]) && rows[i].key is None && forall|j: int|
            0 <= j < i ==> (#[trigger] rows[j]).fingerprint@ != wanted[k] {
        let (k, i) = choose|k: int, i: int|
            0 <= k < wanted.len() && 0 <= i < rows.len() && (#[trigger] rows[i]).fingerprint@ == (
            #[trigger] wanted[k]) && rows[i].key is None && forall|j: int|
                0 <= j < i ==> (#[trigger] rows[j]).fingerprint@ != wanted[k];
        law_first_row_of_a_fingerprint_counts(rows, wanted[k]);
        assert(stored_key(rows, wanted[k]) is Some);
        let found = stored_key(rows, wanted[k])->0;
        let m = choose|m: int|
            0 <= m < rows.len() && (#[trigger] rows[m]).fingerprint@ == wanted[k]
                && rows[m].key is Some == found is Some && (found is Some ==> rows[m].key->0@
                == found->0) && forall|j: int|
                0 <= j < m ==> (#[trigger] rows[j]).fingerprint@ != wanted[k];
        assert(m == i) by {
            if m < i {
                assert(rows[m].fingerprint@ != wanted[k]);
            }
            if i < m {
                assert(rows[i].fingerprint@ != wanted[k]);
            }
        }
    }
}

} // verus!
