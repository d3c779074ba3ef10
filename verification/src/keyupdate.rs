//! Key updates: after a change of the relays, contacts that would not learn of it otherwise are
//! sent the key that lists the new relays.
//!
//! Contacts are informed if they can plausibly hold the own key and showed a sign of life in the
//! last years, the freshest ones if there are too many. Each message goes to a limited number of
//! them. The list of relays that the contacts were last informed of is kept as a baseline, so
//! that nothing is sent twice.

use vstd::prelude::*;

use crate::order;
use crate::queue::{Mail, PublicKey, QueuedMail};
use crate::text;
use crate::text_set;
use crate::text_set::TextSet;

verus! {

/// How many contacts one message is encrypted to at most.
pub const KEYUPDATE_CHUNK_CONTACTS: usize = 200;

/// For how many seconds a contact may show no sign of life before it is left out.
pub const KEYUPDATE_MAX_SILENCE: i64 = 3 * 365 * 24 * 3600;

/// How many contacts are informed after one change at most.
pub const KEYUPDATE_MAX_RECIPIENTS: usize = 5000;

/// The kind of a chat.
#[derive(Clone, Copy, Debug, PartialEq, Eq, Structural)]
pub enum Chattype {
    /// A chat with a single contact.
    Single,
    /// A group.
    Group,
    /// A channel that is followed.
    InBroadcast,
    /// Any other kind.
    Other,
}

/// A contact with a stored key, as a member of one chat.
pub struct Membership {
    pub contact_id: u32,
    /// Fingerprint of the key of the contact, empty if it has none.
    pub fingerprint: String,
    /// Zero unless the contact is blocked.
    pub contact_blocked: i64,
    /// When the contact was last seen, zero if never.
    pub last_seen: i64,
    /// When the contact was added to the chat.
    pub add_timestamp: i64,
    /// When the contact was removed from the chat, zero if never.
    pub remove_timestamp: i64,
    pub chat_id: u32,
    pub chat_type: Chattype,
    pub created_timestamp: i64,
    /// Zero unless the chat is blocked or waits to be accepted.
    pub chat_blocked: i64,
    /// When the last message was written to the chat, if any is left.
    pub last_own_message: Option<i64>,
}

/// The largest identifiers of contacts and chats that stand for something special.
#[derive(Clone, Copy, Debug, PartialEq, Eq, Structural)]
pub struct SpecialIds {
    pub last_contact: u32,
    pub last_chat: u32,
}

/// The larger of two numbers.
pub open spec fn larger(a: i64, b: i64) -> i64 {
    if a >= b {
        a
    } else {
        b
    }
}

fn larger_of(a: i64, b: i64) -> (r: i64)
    ensures
        r == larger(a, b),
{
    if a >= b {
        a
    } else {
        b
    }
}

impl Membership {
    /// Whether neither the contact nor the chat is special or blocked, the contact has a key, and
    /// it has not left the chat, which is a single chat, a group or a channel that is followed.
    pub open spec fn is_current(&self, special: SpecialIds) -> bool {
        &&& self.contact_id > special.last_contact
        &&& self.fingerprint@.len() > 0
        &&& self.contact_blocked == 0
        &&& self.add_timestamp >= self.remove_timestamp
        &&& self.chat_id > special.last_chat
        &&& !(self.chat_type is Other)
        &&& self.chat_blocked == 0
    }

    /// Whether the membership makes its contact one that may be informed. Being a current member
    /// is enough in a chat with several members. A single chat only counts if a message was
    /// written to it or the contact was seen.
    pub open spec fn counts(&self, special: SpecialIds) -> bool {
        &&& self.is_current(special)
        &&& self.chat_type is Single ==> self.last_own_message is Some || self.last_seen != 0
    }

    /// The last sign of life: when the contact was seen, when it was added to the chat, when a
    /// message was written to a single chat, or when a chat with several members was created.
    pub open spec fn sign_of_life(&self) -> i64 {
        larger(
            larger(0, self.last_seen),
            larger(
                self.add_timestamp,
                if self.chat_type is Single {
                    match self.last_own_message {
                        Some(timestamp) => timestamp,
                        None => 0,
                    }
                } else {
                    self.created_timestamp
                },
            ),
        )
    }

    fn is_current_member(&self, special: SpecialIds) -> (r: bool)
        ensures
            r == self.is_current(special),
    {
        let kind_counts = match self.chat_type {
            Chattype::Other => false,
            _ => true,
        };
        self.contact_id > special.last_contact && !self.fingerprint.as_str().is_empty()
            && self.contact_blocked == 0 && self.add_timestamp >= self.remove_timestamp
            && self.chat_id > special.last_chat && kind_counts && self.chat_blocked == 0
    }

    fn is_counted(&self, special: SpecialIds) -> (r: bool)
        ensures
            r == self.counts(special),
    {
        let shows_exchange = match self.chat_type {
            Chattype::Single => self.last_own_message.is_some() || self.last_seen != 0,
            _ => true,
        };
        shows_exchange && self.is_current_member(special)
    }

    fn last_sign(&self) -> (r: i64)
        ensures
            r == self.sign_of_life(),
    {
        let of_chat: i64 = match self.chat_type {
            Chattype::Single => match self.last_own_message {
                Some(timestamp) => timestamp,
                None => 0,
            },
            _ => self.created_timestamp,
        };
        larger_of(larger_of(0, self.last_seen), larger_of(self.add_timestamp, of_chat))
    }
}

/// When a contact showed its last sign of life in a chat that it is a current member of, `None` if
/// there is no such chat.
pub open spec fn freshness(rows: Seq<Membership>, special: SpecialIds, id: u32) -> Option<i64>
    decreases rows.len(),
{
    if rows.len() == 0 {
        None
    } else {
        let before = freshness(rows.drop_last(), special, id);
        let row = rows.last();
        if row.contact_id == id && row.is_current(special) {
            match before {
                Some(sign) => Some(larger(sign, row.sign_of_life())),
                None => Some(row.sign_of_life()),
            }
        } else {
            before
        }
    }
}

/// Whether a contact has a chat that counts.
pub open spec fn is_candidate(rows: Seq<Membership>, special: SpecialIds, id: u32) -> bool {
    exists|i: int|
        0 <= i < rows.len() && (#[trigger] rows[i]).contact_id == id && rows[i].counts(special)
}

/// The contacts that are a current member of a chat, in the order in which they are met.
pub open spec fn contacts_met(rows: Seq<Membership>, special: SpecialIds) -> Seq<u32>
    decreases rows.len(),
{
    if rows.len() == 0 {
        Seq::empty()
    } else {
        let before = contacts_met(rows.drop_last(), special);
        let row = rows.last();
        if row.is_current(special) && !before.contains(row.contact_id) {
            before.push(row.contact_id)
        } else {
            before
        }
    }
}

/// Whether a contact has a chat that counts and showed a sign of life after the given time.
pub open spec fn is_alive(
    rows: Seq<Membership>,
    special: SpecialIds,
    alive_since: i64,
) -> spec_fn(u32) -> bool {
    |id: u32|
        freshness(rows, special, id) matches Some(sign) && sign > alive_since && is_candidate(
            rows,
            special,
            id,
        )
}

/// The contacts that have a chat that counts and showed a sign of life after the given time.
pub open spec fn alive_contacts(
    rows: Seq<Membership>,
    special: SpecialIds,
    alive_since: i64,
) -> Seq<u32> {
    contacts_met(rows, special).filter(is_alive(rows, special, alive_since))
}

/// When some contacts showed their last signs of life.
pub open spec fn signs(rows: Seq<Membership>, special: SpecialIds, ids: Seq<u32>) -> Seq<
    Option<i64>,
> {
    ids.map_values(|id: u32| freshness(rows, special, id))
}

/// The contacts to inform, the freshest first.
pub open spec fn chosen_contacts(
    rows: Seq<Membership>,
    special: SpecialIds,
    alive_since: i64,
    max: nat,
) -> Seq<u32> {
    let alive = alive_contacts(rows, special, alive_since);
    let order = order::latest_first(signs(rows, special, alive));
    let count = if max <= order.len() {
        max
    } else {
        order.len()
    };
    order.take(count as int).map_values(|i: int| alive[i])
}

/// The time after which a contact must have shown a sign of life.
pub open spec fn silence_limit(now: i64) -> i64 {
    if now < i64::MIN + KEYUPDATE_MAX_SILENCE {
        i64::MIN
    } else {
        (now - KEYUPDATE_MAX_SILENCE) as i64
    }
}

pub(crate) proof fn lemma_contacts_met(rows: Seq<Membership>, special: SpecialIds)
    ensures
        contacts_met(rows, special).no_duplicates(),
        forall|id: u32| #[trigger]
            contacts_met(rows, special).contains(id) <==> freshness(rows, special, id) is Some,
    decreases rows.len(),
{
    if rows.len() > 0 {
        lemma_contacts_met(rows.drop_last(), special);
        let before = contacts_met(rows.drop_last(), special);
        let after = contacts_met(rows, special);
        let row = rows.last();
        assert forall|id: u32| #[trigger] after.contains(id) <==> freshness(rows, special, id)
            is Some by {
            assert(before.contains(id) <==> freshness(rows.drop_last(), special, id) is Some);
            if before.contains(id) {
                let k = before.index_of(id);
                assert(after[k] == id);
            }
            if after.contains(id) && !before.contains(id) {
                let k = after.index_of(id);
                assert(k < before.len() ==> before[k] == id);
            }
            if row.is_current(special) && row.contact_id == id && !before.contains(id) {
                assert(after[before.len() as int] == id);
            }
        }
    }
}

/// A contact with a chat that counts is a current member of it.
proof fn lemma_candidates_are_met(rows: Seq<Membership>, special: SpecialIds, id: u32)
    ensures
        is_candidate(rows, special, id) ==> freshness(rows, special, id) is Some,
    decreases rows.len(),
{
    if rows.len() > 0 {
        lemma_is_candidate(rows, special, id);
        lemma_candidates_are_met(rows.drop_last(), special, id);
    }
}

/// The last membership makes its contact a candidate if it counts, and no other.
proof fn lemma_is_candidate(rows: Seq<Membership>, special: SpecialIds, id: u32)
    requires
        rows.len() > 0,
    ensures
        is_candidate(rows, special, id) <==> is_candidate(rows.drop_last(), special, id) || (
        rows.last().contact_id == id && rows.last().counts(special)),
{
    let shorter = rows.drop_last();
    if is_candidate(shorter, special, id) {
        let i = choose|i: int|
            0 <= i < shorter.len() && (#[trigger] shorter[i]).contact_id == id
                && shorter[i].counts(special);
        assert(rows[i] == shorter[i]);
    }
    if is_candidate(rows, special, id) {
        let i = choose|i: int|
            0 <= i < rows.len() && (#[trigger] rows[i]).contact_id == id && rows[i].counts(special);
        if i < shorter.len() {
            assert(shorter[i] == rows[i]);
        }
    }
}

/// Chooses the contacts to inform of a change at the time `now`, at most `max_recipients`.
pub fn keyupdate_candidates(
    rows: &Vec<Membership>,
    special: SpecialIds,
    now: i64,
    max_recipients: usize,
) -> (r: Vec<u32>)
    ensures
        r@ == chosen_contacts(rows@, special, silence_limit(now), max_recipients as nat),
{
    let alive_since: i64 = if now < i64::MIN + KEYUPDATE_MAX_SILENCE {
        i64::MIN
    } else {
        now - KEYUPDATE_MAX_SILENCE
    };
    // The contacts that were met, the freshness of each, and whether it has a chat that counts.
    let mut ids: Vec<u32> = Vec::new();
    let mut fresh: Vec<i64> = Vec::new();
    let mut counted: Vec<bool> = Vec::new();
    for i in 0..rows.len()
        invariant
            ids@ == contacts_met(rows@.take(i as int), special),
            fresh@.len() == ids@.len(),
            counted@.len() == ids@.len(),
            forall|k: int|
                0 <= k < ids@.len() ==> freshness(
                    rows@.take(i as int),
                    special,
                    #[trigger] ids@[k],
                ) == Some(fresh@[k]),
            forall|k: int|
                0 <= k < ids@.len() ==> is_candidate(
                    rows@.take(i as int),
                    special,
                    #[trigger] ids@[k],
                ) == counted@[k],
    {
        let row = &rows[i];
        let ghost seen = rows@.take(i as int);
        let ghost ids_before = ids@;
        let ghost counted_before = counted@;
        proof {
            assert(rows@.take(i + 1).drop_last() =~= seen);
            assert(rows@.take(i + 1).last() == *row);
            lemma_contacts_met(seen, special);
        }
        if row.is_current_member(special) {
            let counts = row.is_counted(special);
            let sign: i64 = row.last_sign();
            let mut at: usize = 0;
            while at < ids.len() && ids[at] != row.contact_id
                invariant
                    at <= ids@.len(),
                    forall|k: int| 0 <= k < at ==> ids@[k] != row.contact_id,
                decreases ids@.len() - at,
            {
                at = at + 1;
            }
            if at < ids.len() {
                assert(ids@.contains(row.contact_id)) by {
                    assert(ids@[at as int] == row.contact_id);
                }
                let updated: i64 = larger_of(fresh[at], sign);
                fresh[at] = updated;
                let counts_now = counted[at] || counts;
                counted[at] = counts_now;
            } else {
                assert(!ids@.contains(row.contact_id));
                ids.push(row.contact_id);
                fresh.push(sign);
                counted.push(counts);
                assert(freshness(seen, special, row.contact_id) is None);
                proof {
                    lemma_candidates_are_met(seen, special, row.contact_id);
                }
            }
        }
        proof {
            let upto = rows@.take(i + 1);
            assert forall|k: int| 0 <= k < ids@.len() implies freshness(
                upto,
                special,
                #[trigger] ids@[k],
            ) == Some(fresh@[k]) by {
                if k < ids_before.len() {
                    assert(ids@[k] == ids_before[k]);
                }
            }
            assert forall|k: int| 0 <= k < ids@.len() implies is_candidate(
                upto,
                special,
                #[trigger] ids@[k],
            ) == counted@[k] by {
                lemma_is_candidate(upto, special, ids@[k]);
                if k < ids_before.len() {
                    assert(ids@[k] == ids_before[k]);
                    assert(is_candidate(seen, special, ids_before[k]) == counted_before[k]);
                }
            }
        }
    }
    assert(rows@.take(rows@.len() as int) =~= rows@);
    let mut alive: Vec<u32> = Vec::new();
    let mut stamps: Vec<Option<i64>> = Vec::new();
    let ghost f = is_alive(rows@, special, alive_since);
    let ghost all = ids@;
    assert(all.take(0).filter(f) =~= Seq::<u32>::empty());
    assert(signs(rows@, special, alive@) =~= stamps@);
    for k in 0..ids.len()
        invariant
            all == ids@,
            f == is_alive(rows@, special, alive_since),
            fresh@.len() == ids@.len(),
            counted@.len() == ids@.len(),
            forall|j: int|
                0 <= j < ids@.len() ==> freshness(rows@, special, #[trigger] ids@[j]) == Some(
                    fresh@[j],
                ),
            forall|j: int|
                0 <= j < ids@.len() ==> is_candidate(rows@, special, #[trigger] ids@[j])
                    == counted@[j],
            alive@ == all.take(k as int).filter(f),
            stamps@ == signs(rows@, special, alive@),
    {
        proof {
            assert(all.take(k + 1) =~= all.take(k as int).push(all[k as int]));
            all.take(k as int).lemma_filter_push(all[k as int], f);
        }
        if counted[k] && fresh[k] > alive_since {
            let ghost before = alive@;
            alive.push(ids[k]);
            stamps.push(Some(fresh[k]));
            assert(signs(rows@, special, alive@) =~= signs(rows@, special, before).push(
                Some(fresh@[k as int]),
            ));
        }
    }
    assert(all.take(all.len() as int) =~= all);
    let positions = order::order_latest_first(&stamps);
    proof {
        order::lemma_latest_first(stamps@);
    }
    let ghost order = order::latest_first(stamps@);
    let count: usize = if max_recipients <= positions.len() {
        max_recipients
    } else {
        positions.len()
    };
    let mut r: Vec<u32> = Vec::new();
    assert(order.len() == positions@.len());
    for k in 0..count
        invariant
            order::ints(positions@) == order,
            count <= positions@.len(),
            positions@.len() == order.len(),
            forall|j: int| 0 <= j < order.len() ==> 0 <= #[trigger] order[j] < alive@.len(),
            r@.len() == k,
            forall|j: int| 0 <= j < k ==> #[trigger] r@[j] == alive@[order[j]],
    {
        assert(order[k as int] == positions@[k as int]);
        r.push(alive[positions[k]]);
    }
    assert(r@ =~= chosen_contacts(rows@, special, alive_since, max_recipients as nat));
    r
}

/// What a stored key of a contact is good for.
pub enum StoredContactKey {
    /// It cannot be parsed.
    Unparsable,
    /// It cannot be encrypted to.
    CannotEncrypt,
    /// It can be encrypted to, and lists the given relays, as normalized addresses.
    Usable { relays: Vec<String>, public_key: PublicKey },
}

/// A contact to inform: its relays, as normalized addresses, and its key.
pub struct KeyupdateRecipient {
    pub relays: Vec<String>,
    pub public_key: PublicKey,
}

/// The contact that a key belongs to, if it can be written to.
pub open spec fn recipient_of(key: StoredContactKey) -> Option<KeyupdateRecipient> {
    match key {
        StoredContactKey::Usable { relays, public_key } => if relays@.len() > 0 {
            Some(KeyupdateRecipient { relays, public_key })
        } else {
            None
        },
        _ => None,
    }
}

/// The contacts that can be written to.
pub open spec fn usable_recipients(keys: Seq<StoredContactKey>) -> Seq<KeyupdateRecipient>
    decreases keys.len(),
{
    if keys.len() == 0 {
        Seq::empty()
    } else {
        let before = usable_recipients(keys.drop_last());
        match recipient_of(keys.last()) {
            Some(recipient) => before.push(recipient),
            None => before,
        }
    }
}

/// Leaves out the contacts that cannot be written to.
pub fn keep_usable(keys: Vec<StoredContactKey>) -> (r: Vec<KeyupdateRecipient>)
    ensures
        r@ == usable_recipients(keys@),
{
    let mut keys = keys;
    let ghost all = keys@;
    // The keys are taken from the back, and what is kept is put in order at the end.
    let mut backwards: Vec<KeyupdateRecipient> = Vec::new();
    assert(usable_recipients(all) =~= usable_recipients(keys@) + backwards@.reverse());
    while keys.len() > 0
        invariant
            usable_recipients(all) == usable_recipients(keys@) + backwards@.reverse(),
        decreases keys@.len(),
    {
        let ghost before = keys@;
        let ghost kept = backwards@;
        let key = keys.pop();
        proof {
            assert(before.drop_last() =~= keys@);
        }
        if let Some(StoredContactKey::Usable { relays, public_key }) = key {
            if relays.len() > 0 {
                backwards.push(KeyupdateRecipient { relays, public_key });
                proof {
                    let recipient = backwards@.last();
                    assert(backwards@.reverse() =~= seq![recipient] + kept.reverse());
                    assert(usable_recipients(keys@).push(recipient) + kept.reverse()
                        =~= usable_recipients(keys@) + backwards@.reverse());
                }
            }
        }
    }
    assert(keys@ =~= Seq::<StoredContactKey>::empty());
    let mut r: Vec<KeyupdateRecipient> = Vec::new();
    let ghost reversed = backwards@.reverse();
    assert(usable_recipients(all) =~= reversed);
    assert(r@ + backwards@.reverse() =~= reversed);
    while backwards.len() > 0
        invariant
            r@ + backwards@.reverse() == reversed,
        decreases backwards@.len(),
    {
        let ghost before = backwards@;
        let ghost done = r@;
        if let Some(recipient) = backwards.pop() {
            r.push(recipient);
            assert(before.reverse() =~= seq![recipient] + backwards@.reverse());
            assert(r@ + backwards@.reverse() =~= done + before.reverse());
        }
    }
    assert(backwards@.reverse() =~= Seq::<KeyupdateRecipient>::empty());
    assert(r@ =~= reversed);
    r
}

/// `rand::seq::SliceRandom::shuffle` puts the items of a list into a random order. Which order
/// is left to chance.
#[verifier::external_body]
fn shuffled(recipients: Vec<KeyupdateRecipient>) -> (r: Vec<KeyupdateRecipient>)
    ensures
        r@.to_multiset() == recipients@.to_multiset(),
{
    let mut recipients = recipients;
    rand::seq::SliceRandom::shuffle(recipients.as_mut_slice(), &mut rand::rng());
    recipients
}

/// The contacts to inform, in random order: how fresh they are decides whether they are informed,
/// but must not show in which of them share a message. `keys` are the stored keys of the chosen
/// contacts.
pub fn keyupdate_recipients(keys: Vec<StoredContactKey>) -> (r: Vec<KeyupdateRecipient>)
    ensures
        r@.to_multiset() == usable_recipients(keys@).to_multiset(),
{
    shuffled(keep_usable(keys))
}

/// The relays of some contacts.
pub open spec fn relays_of(chunk: Seq<KeyupdateRecipient>) -> Set<Seq<char>>
    decreases chunk.len(),
{
    if chunk.len() == 0 {
        Set::empty()
    } else {
        relays_of(chunk.drop_last()).union(text::texts(chunk.last().relays@).to_set())
    }
}

/// The recipients of the message to some contacts: each relay once.
pub open spec fn envelope(chunk: Seq<KeyupdateRecipient>) -> Seq<char> {
    text::joined(text_set::listing(relays_of(chunk)), " "@)
}

/// The recipients of the message to the contacts `from..to`.
pub fn envelope_recipients(
    recipients: &Vec<KeyupdateRecipient>,
    from: usize,
    to: usize,
) -> (r: String)
    requires
        from <= to <= recipients@.len(),
    ensures
        r@ == envelope(recipients@.subrange(from as int, to as int)),
{
    let mut addrs = TextSet::new();
    let ghost chunk = recipients@.subrange(from as int, to as int);
    assert(chunk.take(0) =~= Seq::<KeyupdateRecipient>::empty());
    for i in from..to
        invariant
            from <= to <= recipients@.len(),
            chunk == recipients@.subrange(from as int, to as int),
            addrs.wf(),
            addrs@ == relays_of(chunk.take(i - from)),
    {
        let recipient = &recipients[i];
        let ghost before = addrs@;
        let ghost list = text::texts(recipient.relays@);
        assert(list.take(0).to_set() =~= Set::<Seq<char>>::empty());
        assert(before =~= before.union(list.take(0).to_set()));
        for j in 0..recipient.relays.len()
            invariant
                list == text::texts(recipient.relays@),
                addrs.wf(),
                addrs@ == before.union(list.take(j as int).to_set()),
        {
            addrs.insert(recipient.relays[j].clone());
            proof {
                assert(list.take(j + 1) =~= list.take(j as int).push(list[j as int]));
                list.take(j as int).lemma_push_to_set_commute(list[j as int]);
                assert(before.union(list.take(j as int).to_set()).insert(list[j as int])
                    =~= before.union(list.take(j as int).to_set().insert(list[j as int])));
            }
        }
        proof {
            assert(list.take(list.len() as int) =~= list);
            assert(chunk.take(i - from + 1).drop_last() =~= chunk.take(i - from));
            assert(chunk.take(i - from + 1).last() == *recipient);
        }
    }
    assert(chunk.take(chunk.len() as int) =~= chunk);
    addrs.join(" ")
}

/// A rendered key update with its recipients. It is not signed: a signature names the recipients
/// that it is meant for, and would tell them of each other.
pub open spec fn addressed(mail: Mail, envelope: Seq<char>) -> Mail {
    Mail { should_sign: false, recipients: text::stored_list(envelope), ..mail }
}

/// Completes a rendered key update: it gets its recipients, and is not signed.
pub fn address_keyupdate(mail: QueuedMail, envelope: &str) -> (r: QueuedMail)
    ensures
        !r.should_sign,
        text::texts(r.recipients@) == text::stored_list(envelope@),
        r@ == addressed(mail@, envelope@),
{
    QueuedMail { should_sign: false, recipients: text::load_list(envelope), ..mail }
}

/// A list of relays as it is kept in the baseline.
pub open spec fn baseline(relays: Seq<Seq<char>>) -> Seq<char> {
    text::joined(relays.sort_by(text::text_order()), " "@)
}

/// The own relays as they are kept in the baseline.
pub fn relays_joined(relays: Vec<String>) -> (r: String)
    ensures
        r@ == baseline(text::texts(relays@)),
{
    let mut relays = relays;
    text::sort_texts(&mut relays);
    text::join(&relays, " ")
}

/// When to check next whether an update is due, after several changes in a row have settled.
pub fn schedule_keyupdate_check(now: i64, debounce: i64) -> (r: i64)
    ensures
        r == if now + debounce > i64::MAX {
            i64::MAX as int
        } else if now + debounce < i64::MIN {
            i64::MIN as int
        } else {
            now + debounce
        },
{
    match now.checked_add(debounce) {
        Some(sum) => sum,
        None => if debounce > 0 {
            i64::MAX
        } else {
            i64::MIN
        },
    }
}

} // verus!
