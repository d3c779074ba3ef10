//! Who is told of a change of the relays, and how, by what the tables hold.

use vstd::prelude::*;

use crate::keyupdate;
use crate::keyupdate::{KeyupdateRecipient, Membership, SpecialIds, StoredContactKey};
use crate::keyupdate_job;
use crate::keyupdate_job::{KeyupdateAction, KeyupdateCourse, KeyupdateEvent, KeyupdateJob};
use crate::order;
use crate::queue;
use crate::queue::Mail;
use crate::text;
use crate::text_set;

verus! {

/// Whether a row shows that a contact with a key is a member of a chat, neither of them blocked or
/// special, and that the chat is a single chat, a group or a channel that is followed.
pub open spec fn shows_member(row: Membership, special: SpecialIds, id: u32) -> bool {
    &&& row.contact_id == id
    &&& id > special.last_contact
    &&& row.fingerprint@.len() > 0
    &&& row.contact_blocked == 0
    &&& row.remove_timestamp <= row.add_timestamp
    &&& row.chat_id > special.last_chat
    &&& row.chat_blocked == 0
    &&& row.chat_type is Single || row.chat_type is Group || row.chat_type is InBroadcast
}

/// Whether a row shows a chat that is no mere entry: one with several members, or a single chat
/// with a contact that was seen or written to.
pub open spec fn shows_exchange(row: Membership) -> bool {
    row.chat_type is Single ==> row.last_own_message is Some || row.last_seen != 0
}

/// Whether a row has a sign of life after a time.
pub open spec fn shows_life(row: Membership, since: int) -> bool {
    ||| row.last_seen > since
    ||| row.add_timestamp > since
    ||| row.chat_type is Single && row.last_own_message is Some && row.last_own_message->0 > since
    ||| !(row.chat_type is Single) && row.created_timestamp > since
}

/// The freshness of a contact is not below any time that a chat of it has: when the contact was
/// seen or added, when it was written to in a single chat, when another chat was created.
pub proof fn law_freshness_is_not_below_the_columns(
    rows: Seq<Membership>,
    special: SpecialIds,
    id: u32,
    i: int,
)
    requires
        0 <= i < rows.len(),
        shows_member(rows[i], special, id),
    ensures
        ({
            let row = rows[i];
            let sign = keyupdate::freshness(rows, special, id)->0;
            &&& keyupdate::freshness(rows, special, id) is Some
            &&& sign >= 0
            &&& sign >= row.last_seen
            &&& sign >= row.add_timestamp
            &&& row.chat_type is Single && row.last_own_message is Some ==> sign
                >= row.last_own_message->0
            &&& !(row.chat_type is Single) ==> sign >= row.created_timestamp
        }),
{
    assert(rows[i].is_current(special));
    keyupdate_job::lemma_freshness_reaches(rows, special, i);
}

/// The freshness of a contact is zero or a time that one of its chats has.
pub proof fn law_freshness_is_one_of_the_columns(
    rows: Seq<Membership>,
    special: SpecialIds,
    id: u32,
)
    requires
        keyupdate::freshness(rows, special, id) is Some,
    ensures
        exists|i: int|
            0 <= i < rows.len() && shows_member(#[trigger] rows[i], special, id) && ({
                let sign = keyupdate::freshness(rows, special, id)->0;
                ||| sign == 0
                ||| sign == rows[i].last_seen
                ||| sign == rows[i].add_timestamp
                ||| rows[i].chat_type is Single && rows[i].last_own_message == Some(sign)
                ||| !(rows[i].chat_type is Single) && sign == rows[i].created_timestamp
            }),
{
    keyupdate_job::lemma_freshness_is_shown(rows, special, id);
    let i = choose|i: int|
        0 <= i < rows.len() && (#[trigger] rows[i]).contact_id == id && rows[i].is_current(special)
            && keyupdate::freshness(rows, special, id) == Some(rows[i].sign_of_life());
    assert(shows_member(rows[i], special, id));
}

/// A contact may be informed exactly if a row shows it as a member of a chat that is no mere
/// entry.
pub proof fn law_who_may_be_informed(rows: Seq<Membership>, special: SpecialIds, id: u32)
    ensures
        keyupdate::is_candidate(rows, special, id) <==> exists|i: int|
            0 <= i < rows.len() && shows_member(#[trigger] rows[i], special, id) && shows_exchange(
                rows[i],
            ),
{
    if keyupdate::is_candidate(rows, special, id) {
        let i = choose|i: int|
            0 <= i < rows.len() && (#[trigger] rows[i]).contact_id == id && rows[i].counts(special);
        assert(shows_member(rows[i], special, id));
    }
    if exists|i: int|
        0 <= i < rows.len() && shows_member(#[trigger] rows[i], special, id) && shows_exchange(
            rows[i],
        ) {
        let i = choose|i: int|
            0 <= i < rows.len() && shows_member(#[trigger] rows[i], special, id) && shows_exchange(
                rows[i],
            );
        assert(rows[i].contact_id == id && rows[i].counts(special));
    }
}

/// The limit of silence is three years of 365 days before now, or the beginning of time.
pub proof fn law_silence_is_limited_to_three_years(now: i64)
    ensures
        keyupdate::silence_limit(now) == if now - 94_608_000 < i64::MIN {
            i64::MIN as int
        } else {
            now - 94_608_000
        },
{
}

/// The contacts that are chosen at a time.
pub open spec fn chosen_at(
    rows: Seq<Membership>,
    special: SpecialIds,
    now: i64,
    max: nat,
) -> Seq<u32> {
    keyupdate::chosen_contacts(rows, special, keyupdate::silence_limit(now), max)
}

proof fn lemma_alive(rows: Seq<Membership>, special: SpecialIds, now: i64, id: u32, i: int, j: int)
    requires
        0 <= i < rows.len(),
        shows_member(rows[i], special, id),
        shows_exchange(rows[i]),
        0 <= j < rows.len(),
        shows_member(rows[j], special, id),
        shows_life(rows[j], now - 94_608_000),
    ensures
        keyupdate::is_alive(rows, special, keyupdate::silence_limit(now))(id),
{
    law_who_may_be_informed(rows, special, id);
    law_freshness_is_not_below_the_columns(rows, special, id, j);
    law_silence_is_limited_to_three_years(now);
}

/// A contact with a chat that is no mere entry and with a sign of life in the last three years, in
/// whichever chat, is chosen, unless as many others are chosen as may be and none of them is less
/// fresh.
pub proof fn law_lively_contact_is_chosen(
    rows: Seq<Membership>,
    special: SpecialIds,
    now: i64,
    max: nat,
    id: u32,
    i: int,
    j: int,
)
    requires
        0 <= i < rows.len(),
        shows_member(rows[i], special, id),
        shows_exchange(rows[i]),
        0 <= j < rows.len(),
        shows_member(rows[j], special, id),
        shows_life(rows[j], now - 94_608_000),
    ensures
        chosen_at(rows, special, now, max).contains(id) || {
            &&& chosen_at(rows, special, now, max).len() == max
            &&& forall|k: int|
                0 <= k < max ==> keyupdate::freshness(
                    rows,
                    special,
                    #[trigger] chosen_at(rows, special, now, max)[k],
                )->0 >= keyupdate::freshness(rows, special, id)->0
        },
{
    let since = keyupdate::silence_limit(now);
    let chosen = chosen_at(rows, special, now, max);
    let alive = keyupdate::is_alive(rows, special, since);
    lemma_alive(rows, special, now, id, i, j);
    keyupdate_job::law_freshest_contacts_are_chosen(rows, special, since, max);
    if !chosen.contains(id) {
        assert(alive(id) && !chosen.contains(id));
        assert forall|k: int| 0 <= k < max implies keyupdate::freshness(
            rows,
            special,
            #[trigger] chosen[k],
        )->0 >= keyupdate::freshness(rows, special, id)->0 by {
            assert(alive(chosen[k]));
            assert(!order::later(
                keyupdate::freshness(rows, special, id),
                keyupdate::freshness(rows, special, chosen[k]),
            ));
        }
    }
}

/// A contact that is chosen has a chat that is no mere entry. If three years ago is not before the
/// beginning of the epoch, it also has a sign of life since then.
pub proof fn law_chosen_contact_is_lively(
    rows: Seq<Membership>,
    special: SpecialIds,
    now: i64,
    max: nat,
    id: u32,
)
    requires
        chosen_at(rows, special, now, max).contains(id),
    ensures
        exists|i: int|
            0 <= i < rows.len() && shows_member(#[trigger] rows[i], special, id) && shows_exchange(
                rows[i],
            ),
        now >= 94_608_000 ==> exists|j: int|
            0 <= j < rows.len() && shows_member(#[trigger] rows[j], special, id) && shows_life(
                rows[j],
                now - 94_608_000,
            ),
{
    let since = keyupdate::silence_limit(now);
    let chosen = chosen_at(rows, special, now, max);
    let alive = keyupdate::is_alive(rows, special, since);
    keyupdate_job::law_freshest_contacts_are_chosen(rows, special, since, max);
    let k = chosen.index_of(id);
    assert(alive(chosen[k]));
    law_who_may_be_informed(rows, special, id);
    law_silence_is_limited_to_three_years(now);
    if now >= 94_608_000 {
        law_freshness_is_one_of_the_columns(rows, special, id);
        let sign = keyupdate::freshness(rows, special, id)->0;
        let j = choose|j: int|
            0 <= j < rows.len() && shows_member(#[trigger] rows[j], special, id) && {
                ||| sign == 0
                ||| sign == rows[j].last_seen
                ||| sign == rows[j].add_timestamp
                ||| rows[j].chat_type is Single && rows[j].last_own_message == Some(sign)
                ||| !(rows[j].chat_type is Single) && sign == rows[j].created_timestamp
            };
        assert(shows_life(rows[j], now - 94_608_000));
    }
}

/// No contact is chosen twice, and no more are chosen than may be; the freshest come first.
pub proof fn law_chosen_contacts_are_the_freshest(
    rows: Seq<Membership>,
    special: SpecialIds,
    now: i64,
    max: nat,
    j: int,
    k: int,
)
    requires
        0 <= j < k < chosen_at(rows, special, now, max).len(),
    ensures
        chosen_at(rows, special, now, max).len() <= max,
        chosen_at(rows, special, now, max)[j] != chosen_at(rows, special, now, max)[k],
        keyupdate::freshness(rows, special, chosen_at(rows, special, now, max)[j])->0
            >= keyupdate::freshness(rows, special, chosen_at(rows, special, now, max)[k])->0,
{
    let since = keyupdate::silence_limit(now);
    let chosen = chosen_at(rows, special, now, max);
    let ids = keyupdate::alive_contacts(rows, special, since);
    let stamps = keyupdate::signs(rows, special, ids);
    let alive = keyupdate::is_alive(rows, special, since);
    let ord = order::latest_first(stamps);
    keyupdate_job::law_freshest_contacts_are_chosen(rows, special, since, max);
    order::lemma_latest_first(stamps);
    assert(alive(chosen[j]) && alive(chosen[k]));
    assert(chosen[j] == ids[ord[j]] && chosen[k] == ids[ord[k]]);
    assert(order::comes_first(stamps, ord[j], ord[k]));
    assert(stamps[ord[j]] == keyupdate::freshness(rows, special, chosen[j]));
    assert(stamps[ord[k]] == keyupdate::freshness(rows, special, chosen[k]));
}

/// Of the chosen contacts exactly those are informed whose key can be encrypted to and names a
/// relay, with this key and its relays, in their order.
pub proof fn law_usable_contacts_are_informed(
    a: Seq<StoredContactKey>,
    b: Seq<StoredContactKey>,
    key: StoredContactKey,
)
    ensures
        keyupdate::usable_recipients(a + b) == keyupdate::usable_recipients(a)
            + keyupdate::usable_recipients(b),
        match key {
            StoredContactKey::Usable { relays, public_key } => keyupdate::usable_recipients(
                seq![key],
            ) == if relays@.len() > 0 {
                seq![KeyupdateRecipient { relays, public_key }]
            } else {
                Seq::empty()
            },
            StoredContactKey::Unparsable => keyupdate::usable_recipients(seq![key]).len() == 0,
            StoredContactKey::CannotEncrypt => keyupdate::usable_recipients(seq![key]).len() == 0,
        },
    decreases b.len(),
{
    reveal_with_fuel(keyupdate::usable_recipients, 2);
    assert(seq![key].drop_last() =~= Seq::<StoredContactKey>::empty());
    assert(seq![key].last() == key);
    if let StoredContactKey::Usable { relays, public_key } = key {
        assert(keyupdate::usable_recipients(seq![key]) =~= if relays@.len() > 0 {
            seq![KeyupdateRecipient { relays, public_key }]
        } else {
            Seq::empty()
        });
    }
    if b.len() == 0 {
        assert(a + b =~= a);
        assert(keyupdate::usable_recipients(a) + keyupdate::usable_recipients(b)
            =~= keyupdate::usable_recipients(a));
    } else {
        law_usable_contacts_are_informed(a, b.drop_last(), key);
        assert((a + b).drop_last() =~= a + b.drop_last());
        assert((a + b).last() == b.last());
        assert(keyupdate::usable_recipients(a + b) =~= keyupdate::usable_recipients(a)
            + keyupdate::usable_recipients(b));
    }
}

/// Whether one of the contacts has a relay.
pub open spec fn some_has_relay(chunk: Seq<KeyupdateRecipient>, relay: Seq<char>) -> bool {
    exists|k: int|
        0 <= k < chunk.len() && text::texts((#[trigger] chunk[k]).relays@).contains(relay)
}

proof fn lemma_relays_of(chunk: Seq<KeyupdateRecipient>, relay: Seq<char>)
    ensures
        keyupdate::relays_of(chunk).contains(relay) <==> some_has_relay(chunk, relay),
        keyupdate::relays_of(chunk).finite(),
    decreases chunk.len(),
{
    if chunk.len() > 0 {
        let front = chunk.drop_last();
        lemma_relays_of(front, relay);
        assert(chunk[chunk.len() - 1] == chunk.last());
        let last = text::texts(chunk.last().relays@);
        assert(last.to_set().contains(relay) == last.contains(relay));
        if some_has_relay(front, relay) {
            let k = choose|k: int|
                0 <= k < front.len() && text::texts((#[trigger] front[k]).relays@).contains(relay);
            assert(chunk[k] == front[k]);
        }
        if some_has_relay(chunk, relay) {
            let k = choose|k: int|
                0 <= k < chunk.len() && text::texts((#[trigger] chunk[k]).relays@).contains(relay);
            if k < front.len() {
                assert(front[k] == chunk[k]);
            }
        }
    }
}

/// A message goes to exactly the relays of its contacts, to each once. Relays hold no spaces and
/// are not empty.
pub proof fn law_message_goes_to_the_relays(chunk: Seq<KeyupdateRecipient>, relay: Seq<char>)
    requires
        forall|r: Seq<char>| #[trigger]
            some_has_relay(chunk, r) ==> r.len() > 0 && !r.contains(' '),
    ensures
        text::stored_list(keyupdate::envelope(chunk)).contains(relay) <==> some_has_relay(
            chunk,
            relay,
        ),
        text::stored_list(keyupdate::envelope(chunk)).no_duplicates(),
{
    reveal_strlit(" ");
    assert(" "@ =~= seq![' ']);
    let set = keyupdate::relays_of(chunk);
    let list = text_set::listing(set);
    lemma_relays_of(chunk, relay);
    text_set::law_listing(set, relay);
    assert forall|i: int| 0 <= i < list.len() implies !(#[trigger] list[i]).contains(' ')
        && list[i].len() > 0 by {
        lemma_relays_of(chunk, list[i]);
        text_set::law_listing(set, list[i]);
        assert(list.contains(list[i]));
        assert(some_has_relay(chunk, list[i]));
    }
    if list == seq![Seq::<char>::empty()] {
        assert(list[0].len() > 0);
    }
    text::lemma_stored_list_round_trip(list);
}

/// A key update is what was rendered, but for the recipients and that it is not signed.
pub proof fn law_rendered_message_is_kept(mail: Mail, envelope: Seq<char>)
    ensures
        ({
            let sent = keyupdate::addressed(mail, envelope);
            &&& !sent.should_sign
            &&& sent.recipients == text::stored_list(envelope)
            &&& sent.raw_message == mail.raw_message
            &&& sent.display_name == mail.display_name
            &&& sent.rfc724_mid == mail.rfc724_mid
            &&& sent.encryption == mail.encryption
            &&& sent.should_attach_pubkey == mail.should_attach_pubkey
            &&& sent.should_compress == mail.should_compress
            &&& sent.sent_to == mail.sent_to
            &&& sent.bcc_self == mail.bcc_self
        }),
{
}

/// The baseline lists exactly the relays, in ascending order. Addresses hold no spaces, and are
/// not empty.
pub proof fn law_baseline_lists_the_relays(relays: Seq<Seq<char>>)
    requires
        text::storable(relays),
    ensures
        ({
            let list = text::stored_list(keyupdate::baseline(relays));
            &&& list.to_multiset() == relays.to_multiset()
            &&& forall|i: int, j: int|
                0 <= i < j < list.len() ==> text::text_le(#[trigger] list[i], #[trigger] list[j])
        }),
{
    reveal_strlit(" ");
    assert(" "@ =~= seq![' ']);
    text::lemma_text_order_total();
    let r = text::text_order();
    let sorted = relays.sort_by(r);
    relays.lemma_sort_by_ensures(r);
    keyupdate_job::lemma_sorted_storable(relays);
    text::lemma_stored_list_round_trip(sorted);
    assert forall|i: int, j: int| 0 <= i < j < sorted.len() implies text::text_le(
        #[trigger] sorted[i],
        #[trigger] sorted[j],
    ) by {
        assert(r(sorted[i], sorted[j]));
    }
}

/// Without a baseline, an account with a relay has something to tell, and one without has not.
pub proof fn law_first_relays_are_sent(relays: Seq<Seq<char>>)
    requires
        text::storable(relays),
    ensures
        keyupdate_job::is_known(relays, None) <==> relays.len() == 0,
{
    reveal_strlit(" ");
    assert(" "@ =~= seq![' ']);
    text::lemma_text_order_total();
    let sorted = relays.sort_by(text::text_order());
    relays.lemma_sort_by_ensures(text::text_order());
    relays.to_multiset_ensures();
    sorted.to_multiset_ensures();
    assert(sorted.len() == relays.len());
    keyupdate_job::lemma_sorted_storable(relays);
    text::lemma_stored_list_round_trip(sorted);
    if relays.len() == 0 {
        assert(keyupdate::baseline(relays) =~= Seq::empty());
    }
}

/// A job looks for contacts exactly if the relays are not those that the contacts were informed
/// of, and ends at once otherwise.
pub proof fn law_only_changes_are_sent(c: KeyupdateCourse, recorded: Seq<Seq<char>>)
    requires
        c.valid(),
        c.events.len() > 0,
        c.events[0] matches KeyupdateEvent::Relays { baseline: Some(b), .. } && b@
            == keyupdate::baseline(recorded),
        text::storable(recorded),
        text::storable(c.relays()),
    ensures
        c.relays().to_multiset() == recorded.to_multiset() ==> c.actions[1] is Finish
            && c.events.len() == 1,
        c.relays().to_multiset() != recorded.to_multiset() ==> c.actions[1] is FindRecipients,
{
    assert(c.events[0].answers(c.jobs[0]));
    if c.relays().to_multiset() == recorded.to_multiset() {
        keyupdate_job::law_same_relays_are_not_sent_again(recorded, c.relays());
        assert(c.jobs[1] is Done);
        if c.events.len() > 1 {
            assert(c.events[1].answers(c.jobs[1]));
        }
    } else if keyupdate_job::is_known(c.relays(), Some(keyupdate::baseline(recorded))) {
        keyupdate_job::law_changed_relays_are_sent(recorded, c.relays());
    }
}

/// Whether the contacts from one place to another share a message: as many as one message may go
/// to, or all that are left.
pub open spec fn is_portion(len: nat, from: int, to: int) -> bool {
    0 <= from < to <= len && to - from <= 200 && (to - from == 200 || to == len)
}

proof fn lemma_portion(c: KeyupdateCourse, i: int)
    requires
        c.valid(),
        0 <= i < c.jobs.len(),
    ensures
        c.jobs[i] matches KeyupdateJob::Rendering { recipients, envelope, done, .. } ==> {
            &&& i >= 2
            &&& recipients@ == c.recipients()
            &&& c.actions[i] matches KeyupdateAction::Render { keys }
            &&& exists|from: int| #[trigger]
                is_portion(c.recipients().len(), from, done as int) && envelope@
                    == keyupdate::envelope(c.recipients().subrange(from, done as int))
                    && queue::keys_of(keys@) == keyupdate_job::keys_of(
                    c.recipients().subrange(from, done as int),
                )
        },
        c.jobs[i] matches KeyupdateJob::Queueing { recipients, done, .. } ==> i >= 2
            && recipients@ == c.recipients(),
        c.actions[i] is Queue ==> i >= 2 && c.jobs[i] is Queueing && c.jobs[i - 1] is Rendering
            && c.events[i - 1] is Rendered,
        c.jobs[i] is Finding ==> i == 1,
    decreases i,
{
    if i > 0 {
        lemma_portion(c, i - 1);
        assert(c.events[i - 1].answers(c.jobs[i - 1]));
        if let KeyupdateJob::Rendering { done, .. } = c.jobs[i] {
            let from = match c.jobs[i - 1] {
                KeyupdateJob::Queueing { done: d, .. } => d as int,
                _ => 0int,
            };
            assert(is_portion(c.recipients().len(), from, done as int));
        }
    }
}

/// A message is encrypted to the keys of neighbouring contacts, as many as one message may go to,
/// and goes to the relays of the same contacts. Otherwise it is what was rendered.
pub proof fn law_contacts_share_a_message(c: KeyupdateCourse, i: int)
    requires
        c.valid(),
        0 <= i < c.actions.len(),
        c.actions[i] is Queue,
    ensures
        ({
            let mail = c.actions[i]->Queue_0@;
            let rendered = c.events[i - 1]->Rendered_0@;
            &&& i >= 1
            &&& c.events[i - 1] is Rendered
            &&& mail == (Mail { should_sign: false, recipients: mail.recipients, ..rendered })
            &&& c.actions[i - 1] matches KeyupdateAction::Render { keys }
            &&& exists|from: int, to: int| #[trigger]
                is_portion(c.recipients().len(), from, to) && mail.recipients == text::stored_list(
                    keyupdate::envelope(c.recipients().subrange(from, to)),
                ) && keys@.len() == to - from && forall|k: int|
                    0 <= k < to - from ==> (#[trigger] keys@[k])@ == c.recipients()[from
                        + k].public_key@
        }),
{
    lemma_portion(c, i);
    lemma_portion(c, i - 1);
    assert(c.events[i - 1].answers(c.jobs[i - 1]));
    if let KeyupdateAction::Render { keys } = c.actions[i - 1] {
        let done = c.jobs[i - 1]->Rendering_done;
        let envelope = c.jobs[i - 1]->Rendering_envelope@;
        let from = choose|from: int| #[trigger]
            is_portion(c.recipients().len(), from, done as int) && envelope
                == keyupdate::envelope(c.recipients().subrange(from, done as int))
                && queue::keys_of(keys@) == keyupdate_job::keys_of(
                c.recipients().subrange(from, done as int),
            );
        let chunk = c.recipients().subrange(from, done as int);
        assert(queue::keys_of(keys@).len() == keyupdate_job::keys_of(chunk).len());
        assert forall|k: int| 0 <= k < done - from implies (#[trigger] keys@[k])@
            == c.recipients()[from + k].public_key@ by {
            assert(queue::keys_of(keys@)[k] == keyupdate_job::keys_of(chunk)[k]);
        }
        assert(is_portion(c.recipients().len(), from, done as int));
    }
}

/// A job that looked for contacts only ends after it has recorded the relays.
pub proof fn law_finished_update_is_recorded(c: KeyupdateCourse, i: int)
    requires
        c.valid(),
        1 < i < c.actions.len(),
        c.actions[i] is Finish,
    ensures
        i >= 3,
        c.actions[i - 1] is SetBaseline,
        c.events[i - 1] is BaselineSet,
{
    assert(c.events[i - 1].answers(c.jobs[i - 1]));
    assert(c.events[i - 2].answers(c.jobs[i - 2]));
    if i == 2 {
        assert(c.jobs[0] is Comparing);
    }
}

} // verus!
