//! Sending key updates, step by step.

use vstd::prelude::*;

use crate::keyupdate;
use crate::keyupdate::{KeyupdateRecipient, Membership, SpecialIds, KEYUPDATE_CHUNK_CONTACTS};
use crate::order;
use crate::queue;
use crate::queue::{Key, PublicKey, QueuedMail};
use crate::text;

verus! {

/// What came of an action.
pub enum KeyupdateEvent {
    /// The own relays, and the list that the contacts were last informed of.
    Relays { current: Vec<String>, baseline: Option<String> },
    /// The contacts to inform.
    Recipients(Vec<KeyupdateRecipient>),
    /// The message was rendered.
    Rendered(QueuedMail),
    /// The message was put into the queue.
    Queued,
    /// The baseline was stored.
    BaselineSet,
}

/// What is to be done.
pub enum KeyupdateAction {
    /// Find out the own relays and the list that the contacts were last informed of.
    GetRelays,
    /// Find the contacts to inform.
    FindRecipients,
    /// Render a message that is encrypted to the given keys.
    Render { keys: Vec<PublicKey> },
    /// Put a message into the queue.
    Queue(QueuedMail),
    /// Store the list that the contacts were informed of.
    SetBaseline(String),
    /// Nothing more.
    Finish,
}

/// How far a job is.
pub enum KeyupdateJob {
    Comparing,
    Finding { current: String },
    /// The message to the contacts up to `done` is being rendered; `envelope` are its recipients.
    Rendering {
        current: String,
        recipients: Vec<KeyupdateRecipient>,
        envelope: String,
        done: usize,
    },
    /// The contacts before `done` were informed.
    Queueing { current: String, recipients: Vec<KeyupdateRecipient>, done: usize },
    Recording,
    Done,
}

impl KeyupdateEvent {
    /// Whether the event answers the action that a job waits for.
    pub open spec fn answers(&self, job: KeyupdateJob) -> bool {
        match job {
            KeyupdateJob::Comparing => self is Relays,
            KeyupdateJob::Finding { .. } => self is Recipients,
            KeyupdateJob::Rendering { .. } => self is Rendered,
            KeyupdateJob::Queueing { .. } => self is Queued,
            KeyupdateJob::Recording => self is BaselineSet,
            KeyupdateJob::Done => false,
        }
    }
}

/// Whether the contacts were informed of the relays already; without a baseline they were
/// informed of none.
pub open spec fn is_known(relays: Seq<Seq<char>>, baseline: Option<Seq<char>>) -> bool {
    keyupdate::baseline(relays) == match baseline {
        Some(b) => b,
        None => Seq::empty(),
    }
}

/// Where the portion that starts at `from` ends.
pub open spec fn chunk_end(len: nat, from: int) -> int {
    if from + KEYUPDATE_CHUNK_CONTACTS <= len {
        from + KEYUPDATE_CHUNK_CONTACTS
    } else {
        len as int
    }
}

/// The keys of some contacts.
pub open spec fn keys_of(chunk: Seq<KeyupdateRecipient>) -> Seq<Key> {
    chunk.map_values(|r: KeyupdateRecipient| r.public_key@)
}

/// The job renders the message to the next contacts, or records the new list when all were
/// informed.
pub open spec fn renders_next(
    current: Seq<char>,
    recipients: Seq<KeyupdateRecipient>,
    from: int,
    after: KeyupdateJob,
    action: KeyupdateAction,
) -> bool {
    if from < recipients.len() {
        let to = chunk_end(recipients.len(), from);
        let chunk = recipients.subrange(from, to);
        &&& after matches KeyupdateJob::Rendering { current: c, recipients: r, envelope, done }
        &&& c@ == current
        &&& r@ == recipients
        &&& envelope@ == keyupdate::envelope(chunk)
        &&& done == to
        &&& action matches KeyupdateAction::Render { keys }
        &&& queue::keys_of(keys@) == keys_of(chunk)
    } else {
        &&& after is Recording
        &&& action matches KeyupdateAction::SetBaseline(list)
        &&& list@ == current
    }
}

/// What a job does next.
pub open spec fn steps(
    before: KeyupdateJob,
    event: KeyupdateEvent,
    after: KeyupdateJob,
    action: KeyupdateAction,
) -> bool {
    match (before, event) {
        (KeyupdateJob::Comparing, KeyupdateEvent::Relays { current, baseline }) => {
            let relays = text::texts(current@);
            if is_known(relays, crate::transport_store::opt_text(baseline)) {
                after is Done && action is Finish
            } else {
                &&& after matches KeyupdateJob::Finding { current: c }
                &&& c@ == keyupdate::baseline(relays)
                &&& action is FindRecipients
            }
        },
        (KeyupdateJob::Finding { current }, KeyupdateEvent::Recipients(recipients)) => renders_next(
            current@,
            recipients@,
            0,
            after,
            action,
        ),
        (
            KeyupdateJob::Rendering { current, recipients, envelope, done },
            KeyupdateEvent::Rendered(mail),
        ) => {
            &&& after == (KeyupdateJob::Queueing { current, recipients, done })
            &&& action matches KeyupdateAction::Queue(m)
            &&& m@ == keyupdate::addressed(mail@, envelope@)
        },
        (KeyupdateJob::Queueing { current, recipients, done }, KeyupdateEvent::Queued) =>
            renders_next(current@, recipients@, done as int, after, action),
        (KeyupdateJob::Recording, KeyupdateEvent::BaselineSet) => after is Done && action is Finish,
        _ => false,
    }
}

impl KeyupdateJob {
    /// A new job.
    pub fn new() -> (r: (KeyupdateJob, KeyupdateAction))
        ensures
            r.0 is Comparing,
            r.1 is GetRelays,
    {
        (KeyupdateJob::Comparing, KeyupdateAction::GetRelays)
    }

    fn render_next(current: String, recipients: Vec<KeyupdateRecipient>, from: usize) -> (r: (
        KeyupdateJob,
        KeyupdateAction,
    ))
        ensures
            renders_next(current@, recipients@, from as int, r.0, r.1),
    {
        if from >= recipients.len() {
            return (KeyupdateJob::Recording, KeyupdateAction::SetBaseline(current));
        }
        let to: usize = if recipients.len() - from >= KEYUPDATE_CHUNK_CONTACTS {
            from + KEYUPDATE_CHUNK_CONTACTS
        } else {
            recipients.len()
        };
        let envelope = keyupdate::envelope_recipients(&recipients, from, to);
        let mut keys: Vec<PublicKey> = Vec::new();
        let ghost chunk = recipients@.subrange(from as int, to as int);
        for i in from..to
            invariant
                from <= to <= recipients@.len(),
                chunk == recipients@.subrange(from as int, to as int),
                keys@.len() == i - from,
                forall|j: int|
                    0 <= j < i - from ==> (#[trigger] keys@[j])@ == chunk[j].public_key@,
        {
            keys.push(recipients[i].public_key.clone());
        }
        assert(queue::keys_of(keys@) =~= keys_of(chunk));
        (
            KeyupdateJob::Rendering { current, recipients, envelope, done: to },
            KeyupdateAction::Render { keys },
        )
    }

    /// Takes what came of the last action, and says what is to be done next.
    pub fn step(self, event: KeyupdateEvent) -> (r: (KeyupdateJob, KeyupdateAction))
        requires
            event.answers(self),
        ensures
            steps(self, event, r.0, r.1),
    {
        match (self, event) {
            (KeyupdateJob::Comparing, KeyupdateEvent::Relays { current, baseline }) => {
                let current = keyupdate::relays_joined(current);
                let last = match baseline {
                    Some(list) => list,
                    None => String::new(),
                };
                if text::same_text(last.as_str(), current.as_str()) {
                    (KeyupdateJob::Done, KeyupdateAction::Finish)
                } else {
                    (KeyupdateJob::Finding { current }, KeyupdateAction::FindRecipients)
                }
            },
            (KeyupdateJob::Finding { current }, KeyupdateEvent::Recipients(recipients)) => {
                Self::render_next(current, recipients, 0)
            },
            (
                KeyupdateJob::Rendering { current, recipients, envelope, done },
                KeyupdateEvent::Rendered(mail),
            ) => {
                let mail = keyupdate::address_keyupdate(mail, envelope.as_str());
                (
                    KeyupdateJob::Queueing { current, recipients, done },
                    KeyupdateAction::Queue(mail),
                )
            },
            (KeyupdateJob::Queueing { current, recipients, done }, KeyupdateEvent::Queued) => {
                Self::render_next(current, recipients, done)
            },
            (KeyupdateJob::Recording, KeyupdateEvent::BaselineSet) => (
                KeyupdateJob::Done,
                KeyupdateAction::Finish,
            ),
            _ => (KeyupdateJob::Done, KeyupdateAction::Finish),
        }
    }
}

// ---------------------------------------------------------------------------
// Laws
// ---------------------------------------------------------------------------

/// A course of a job: its states and the actions that led to them, and between each two states
/// the event.
pub struct KeyupdateCourse {
    pub jobs: Seq<KeyupdateJob>,
    pub actions: Seq<KeyupdateAction>,
    pub events: Seq<KeyupdateEvent>,
}

impl KeyupdateCourse {
    /// The job begins as a new one, and each step is one that a job takes.
    pub open spec fn valid(self) -> bool {
        &&& self.jobs.len() == self.events.len() + 1
        &&& self.actions.len() == self.events.len() + 1
        &&& self.jobs[0] is Comparing
        &&& self.actions[0] is GetRelays
        &&& forall|i: int| #![trigger self.events[i]]
            0 <= i < self.events.len() ==> self.events[i].answers(self.jobs[i]) && steps(
                self.jobs[i],
                self.events[i],
                self.jobs[i + 1],
                self.actions[i + 1],
            )
    }

    /// The own relays.
    pub open spec fn relays(self) -> Seq<Seq<char>> {
        match self.events[0] {
            KeyupdateEvent::Relays { current, .. } => text::texts(current@),
            _ => Seq::empty(),
        }
    }

    /// The contacts to inform.
    pub open spec fn recipients(self) -> Seq<KeyupdateRecipient> {
        match self.events[1] {
            KeyupdateEvent::Recipients(recipients) => recipients@,
            _ => Seq::empty(),
        }
    }
}

/// The keys that messages are encrypted to, in order.
pub open spec fn informed(actions: Seq<KeyupdateAction>) -> Seq<Key>
    decreases actions.len(),
{
    if actions.len() == 0 {
        Seq::empty()
    } else {
        let before = informed(actions.drop_last());
        match actions.last() {
            KeyupdateAction::Render { keys } => before + queue::keys_of(keys@),
            _ => before,
        }
    }
}

/// How many messages were rendered but not put into the queue.
pub open spec fn outstanding(actions: Seq<KeyupdateAction>) -> int
    decreases actions.len(),
{
    if actions.len() == 0 {
        0
    } else {
        outstanding(actions.drop_last()) + match actions.last() {
            KeyupdateAction::Render { .. } => 1int,
            KeyupdateAction::Queue(_) => -1int,
            _ => 0int,
        }
    }
}

/// Whether `list` are the relays of some neighbouring contacts.
pub open spec fn is_envelope(
    recipients: Seq<KeyupdateRecipient>,
    from: int,
    to: int,
    list: Seq<char>,
) -> bool {
    &&& 0 <= from < to <= recipients.len()
    &&& list == keyupdate::envelope(recipients.subrange(from, to))
}

proof fn lemma_keyupdate(c: KeyupdateCourse, i: int)
    requires
        c.valid(),
        0 <= i < c.jobs.len(),
    ensures
        match c.jobs[i] {
            KeyupdateJob::Comparing => i == 0 && informed(c.actions.take(i + 1)).len() == 0,
            KeyupdateJob::Finding { current } => i == 1 && current@ == keyupdate::baseline(
                c.relays(),
            ) && informed(c.actions.take(i + 1)).len() == 0,
            KeyupdateJob::Rendering { current, recipients, envelope, done } => {
                &&& i >= 2
                &&& current@ == keyupdate::baseline(c.relays())
                &&& recipients@ == c.recipients()
                &&& done <= recipients@.len()
                &&& informed(c.actions.take(i + 1)) == keys_of(recipients@.take(done as int))
                &&& exists|from: int| #[trigger]
                    is_envelope(c.recipients(), from, done as int, envelope@)
            },
            KeyupdateJob::Queueing { current, recipients, done } => {
                &&& i >= 2
                &&& current@ == keyupdate::baseline(c.relays())
                &&& recipients@ == c.recipients()
                &&& done <= recipients@.len()
                &&& informed(c.actions.take(i + 1)) == keys_of(recipients@.take(done as int))
            },
            KeyupdateJob::Recording => {
                &&& i >= 2
                &&& informed(c.actions.take(i + 1)) == keys_of(c.recipients())
                &&& c.actions[i] matches KeyupdateAction::SetBaseline(list)
                &&& list@ == keyupdate::baseline(c.relays())
            },
            KeyupdateJob::Done => i >= 1 && c.actions[i] is Finish && (i > 1 ==> informed(
                c.actions.take(i + 1),
            ) == keys_of(c.recipients())) && (i == 1 ==> informed(c.actions.take(i + 1)).len()
                == 0),
        },
        c.actions[i] is SetBaseline ==> c.jobs[i] is Recording,
        c.actions[i] is Finish ==> c.jobs[i] is Done,
        outstanding(c.actions.take(i + 1)) == if c.jobs[i] is Rendering {
            1int
        } else {
            0int
        },
        c.actions[i] matches KeyupdateAction::Render { keys } ==> 0 < keys@.len()
            <= KEYUPDATE_CHUNK_CONTACTS,
        c.actions[i] matches KeyupdateAction::Queue(mail) ==> !mail.should_sign && exists|
            from: int,
            to: int,
            list: Seq<char>,
        | #[trigger]
            is_envelope(c.recipients(), from, to, list) && mail@.recipients == text::stored_list(
                list,
            ),
    decreases i,
{
    assert(c.actions.take(i + 1).last() == c.actions[i]);
    if i == 0 {
        assert(c.actions.take(1).drop_last() =~= Seq::empty());
        reveal_with_fuel(informed, 2);
        reveal_with_fuel(outstanding, 2);
    } else {
        lemma_keyupdate(c, i - 1);
        assert(c.events[i - 1].answers(c.jobs[i - 1]));
        assert(c.actions.take(i + 1).drop_last() =~= c.actions.take(i));
        let before = informed(c.actions.take(i));
        match c.jobs[i - 1] {
            KeyupdateJob::Finding { .. } => {
                let recipients = c.recipients();
                let to = chunk_end(recipients.len(), 0);
                assert(before =~= Seq::<Key>::empty());
                assert(recipients.subrange(0, to) =~= recipients.take(to));
                if recipients.len() == 0 {
                    assert(keys_of(recipients) =~= Seq::<Key>::empty());
                } else if let KeyupdateAction::Render { keys } = c.actions[i] {
                    assert(is_envelope(recipients, 0, to, c.jobs[i]->Rendering_envelope@));
                    assert(queue::keys_of(keys@).len() == keys@.len());
                    assert(before + queue::keys_of(keys@) =~= keys_of(recipients.take(to)));
                }
            },
            KeyupdateJob::Queueing { recipients, done, .. } => {
                let list = recipients@;
                if done < list.len() {
                    let to = chunk_end(list.len(), done as int);
                    if let KeyupdateAction::Render { keys } = c.actions[i] {
                        assert(is_envelope(
                            c.recipients(),
                            done as int,
                            to,
                            c.jobs[i]->Rendering_envelope@,
                        ));
                        assert(queue::keys_of(keys@).len() == keys@.len());
                        assert(keys_of(list.take(done as int)) + keys_of(
                            list.subrange(done as int, to),
                        ) =~= keys_of(list.take(to)));
                    }
                } else {
                    assert(list.take(done as int) =~= list);
                }
            },
            _ => {},
        }
    }
}

/// The baseline is only recorded after messages to all contacts were rendered, to each contact in
/// one message, and all of them were queued; so a job that is interrupted is taken up again later.
pub proof fn law_baseline_is_recorded_last(c: KeyupdateCourse, i: int)
    requires
        c.valid(),
        0 <= i < c.actions.len(),
        c.actions[i] is SetBaseline,
    ensures
        informed(c.actions.take(i + 1)) == keys_of(c.recipients()),
        outstanding(c.actions.take(i + 1)) == 0,
        c.actions[i] matches KeyupdateAction::SetBaseline(list) && list@ == keyupdate::baseline(
            c.relays(),
        ),
{
    lemma_keyupdate(c, i);
}

/// No message goes to more contacts than one message may, and none to nobody.
pub proof fn law_messages_are_limited(c: KeyupdateCourse, i: int)
    requires
        c.valid(),
        0 <= i < c.actions.len(),
        c.actions[i] is Render,
    ensures
        c.actions[i] matches KeyupdateAction::Render { keys } && 0 < keys@.len()
            <= KEYUPDATE_CHUNK_CONTACTS,
{
    lemma_keyupdate(c, i);
}

/// Key updates are not signed, whatever was rendered: a signature names the recipients that it is
/// meant for, and would tell them of each other. They go to the relays of some of the contacts.
pub proof fn law_keyupdates_are_not_signed(c: KeyupdateCourse, i: int)
    requires
        c.valid(),
        0 <= i < c.actions.len(),
        c.actions[i] is Queue,
    ensures
        c.actions[i] matches KeyupdateAction::Queue(mail) && !mail.should_sign && exists|
            from: int,
            to: int,
            list: Seq<char>,
        | #[trigger]
            is_envelope(c.recipients(), from, to, list) && mail@.recipients == text::stored_list(
                list,
            ),
{
    lemma_keyupdate(c, i);
}

/// After a list was recorded, nothing more is sent as long as the relays are the same, in
/// whichever order they are listed.
pub proof fn law_same_relays_are_not_sent_again(
    recorded: Seq<Seq<char>>,
    relays: Seq<Seq<char>>,
)
    requires
        recorded.to_multiset() == relays.to_multiset(),
    ensures
        is_known(relays, Some(keyupdate::baseline(recorded))),
{
    text::lemma_text_order_total();
    recorded.lemma_sort_by_ensures(text::text_order());
    relays.lemma_sort_by_ensures(text::text_order());
    vstd::seq_lib::lemma_sorted_unique(
        recorded.sort_by(text::text_order()),
        relays.sort_by(text::text_order()),
        text::text_order(),
    );
}

/// A change of the relays is noticed: two lists with the same baseline have the same relays.
/// Addresses hold no spaces, and are not empty.
pub proof fn law_changed_relays_are_sent(recorded: Seq<Seq<char>>, relays: Seq<Seq<char>>)
    requires
        is_known(relays, Some(keyupdate::baseline(recorded))),
        text::storable(recorded),
        text::storable(relays),
    ensures
        recorded.to_multiset() == relays.to_multiset(),
{
    reveal_strlit(" ");
    assert(" "@ =~= seq![' ']);
    text::lemma_text_order_total();
    let a = recorded.sort_by(text::text_order());
    let b = relays.sort_by(text::text_order());
    recorded.lemma_sort_by_ensures(text::text_order());
    relays.lemma_sort_by_ensures(text::text_order());
    lemma_sorted_storable(recorded);
    lemma_sorted_storable(relays);
    text::lemma_stored_list_round_trip(a);
    text::lemma_stored_list_round_trip(b);
}

pub(crate) proof fn lemma_sorted_storable(list: Seq<Seq<char>>)
    requires
        text::storable(list),
    ensures
        text::storable(list.sort_by(text::text_order())),
{
    text::lemma_text_order_total();
    let sorted = list.sort_by(text::text_order());
    list.lemma_sort_by_ensures(text::text_order());
    list.to_multiset_ensures();
    sorted.to_multiset_ensures();
    assert forall|i: int| 0 <= i < sorted.len() implies !(#[trigger] sorted[i]).contains(' ') by {
        assert(sorted.to_multiset().count(sorted[i]) > 0);
        assert(list.contains(sorted[i]));
    }
    if sorted == seq![Seq::<char>::empty()] {
        assert(sorted[0] == Seq::<char>::empty());
        assert(sorted.contains(sorted[0]));
        assert(list.contains(Seq::<char>::empty()));
        assert(list.len() == 1);
        assert(list =~= seq![Seq::<char>::empty()]);
    }
}

/// Of the contacts that showed a sign of life, the freshest are informed: each at most once, not
/// more than asked for, and none that is left out is fresher than one that is informed.
pub proof fn law_freshest_contacts_are_chosen(
    rows: Seq<Membership>,
    special: SpecialIds,
    alive_since: i64,
    max: nat,
)
    ensures
        ({
            let chosen = keyupdate::chosen_contacts(rows, special, alive_since, max);
            let alive = keyupdate::is_alive(rows, special, alive_since);
            &&& chosen.len() <= max
            &&& chosen.no_duplicates()
            &&& forall|i: int| 0 <= i < chosen.len() ==> alive(#[trigger] chosen[i])
            &&& forall|id: u32| #[trigger]
                alive(id) && !chosen.contains(id) ==> {
                    &&& chosen.len() == max
                    &&& forall|i: int|
                        0 <= i < chosen.len() ==> !order::later(
                            keyupdate::freshness(rows, special, id),
                            keyupdate::freshness(rows, special, #[trigger] chosen[i]),
                        )
                }
        }),
{
    let ids = keyupdate::alive_contacts(rows, special, alive_since);
    let met = keyupdate::contacts_met(rows, special);
    let alive = keyupdate::is_alive(rows, special, alive_since);
    let stamps = keyupdate::signs(rows, special, ids);
    let ord = order::latest_first(stamps);
    let chosen = keyupdate::chosen_contacts(rows, special, alive_since, max);
    order::lemma_latest_first(stamps);
    keyupdate::lemma_contacts_met(rows, special);
    lemma_filter(met, alive);
    let count = chosen.len();
    assert forall|i: int, j: int| 0 <= i < j < chosen.len() implies chosen[i] != chosen[j] by {
        assert(chosen[i] == ids[ord[i]] && chosen[j] == ids[ord[j]]);
        assert(ord[i] != ord[j]);
    }
    assert forall|i: int| 0 <= i < chosen.len() implies alive(#[trigger] chosen[i]) by {
        assert(chosen[i] == ids[ord[i]]);
    }
    assert forall|id: u32| #[trigger] alive(id) && !chosen.contains(id) implies {
        &&& chosen.len() == max
        &&& forall|i: int|
            0 <= i < chosen.len() ==> !order::later(
                keyupdate::freshness(rows, special, id),
                keyupdate::freshness(rows, special, #[trigger] chosen[i]),
            )
    } by {
        assert(met.contains(id));
        assert(ids.contains(id));
        let p = ids.index_of(id);
        assert(order::positions(stamps.len())[p] == p);
        assert(order::positions(stamps.len()).to_set().contains(p));
        assert(ord.to_set().contains(p));
        let k = ord.index_of(p);
        assert(ord[k] == p);
        if k < count {
            assert(chosen[k] == id);
        }
        assert forall|i: int| 0 <= i < chosen.len() implies !order::later(
            keyupdate::freshness(rows, special, id),
            keyupdate::freshness(rows, special, #[trigger] chosen[i]),
        ) by {
            assert(chosen[i] == ids[ord[i]]);
            assert(order::comes_first(stamps, ord[i], ord[k]));
            assert(stamps[ord[i]] == keyupdate::freshness(rows, special, chosen[i]));
            assert(stamps[p] == keyupdate::freshness(rows, special, id));
        }
    }
}

/// A contact that is only in single chats, was never seen and was never written to is not
/// informed, whenever it was added to them or they were created.
pub proof fn law_silent_single_chats_do_not_count(
    rows: Seq<Membership>,
    special: SpecialIds,
    alive_since: i64,
    id: u32,
)
    requires
        forall|i: int|
            0 <= i < rows.len() && (#[trigger] rows[i]).contact_id == id ==> {
                &&& rows[i].chat_type is Single
                &&& rows[i].last_own_message is None
                &&& rows[i].last_seen == 0
            },
    ensures
        !keyupdate::is_alive(rows, special, alive_since)(id),
{
}

pub(crate) proof fn lemma_freshness_reaches(rows: Seq<Membership>, special: SpecialIds, i: int)
    requires
        0 <= i < rows.len(),
        rows[i].is_current(special),
    ensures
        keyupdate::freshness(rows, special, rows[i].contact_id) matches Some(sign) && sign
            >= rows[i].sign_of_life(),
    decreases rows.len(),
{
    if i < rows.len() - 1 {
        assert(rows.drop_last()[i] == rows[i]);
        lemma_freshness_reaches(rows.drop_last(), special, i);
    }
}

/// Any sign of life in any chat that a contact is a current member of is enough for it to be
/// informed, if one of its chats counts.
pub proof fn law_any_sign_of_life_counts(
    rows: Seq<Membership>,
    special: SpecialIds,
    alive_since: i64,
    i: int,
)
    requires
        0 <= i < rows.len(),
        rows[i].is_current(special),
        rows[i].sign_of_life() > alive_since,
        keyupdate::is_candidate(rows, special, rows[i].contact_id),
    ensures
        keyupdate::is_alive(rows, special, alive_since)(rows[i].contact_id),
{
    lemma_freshness_reaches(rows, special, i);
}

pub(crate) proof fn lemma_freshness_is_shown(rows: Seq<Membership>, special: SpecialIds, id: u32)
    requires
        keyupdate::freshness(rows, special, id) is Some,
    ensures
        exists|i: int|
            0 <= i < rows.len() && (#[trigger] rows[i]).contact_id == id && rows[i].is_current(
                special,
            ) && keyupdate::freshness(rows, special, id) == Some(rows[i].sign_of_life()),
    decreases rows.len(),
{
    let row = rows.last();
    let shorter = rows.drop_last();
    let fresh = keyupdate::freshness(rows, special, id);
    if row.contact_id == id && row.is_current(special) && fresh == Some(row.sign_of_life()) {
        assert(rows[rows.len() - 1] == row);
    } else {
        lemma_freshness_is_shown(shorter, special, id);
        let i = choose|i: int|
            0 <= i < shorter.len() && (#[trigger] shorter[i]).contact_id == id
                && shorter[i].is_current(special) && keyupdate::freshness(shorter, special, id)
                == Some(shorter[i].sign_of_life());
        assert(rows[i] == shorter[i]);
    }
}

/// Only a contact with a chat that counts and a sign of life in a chat that it is a current member
/// of is informed; so no contact is that is blocked, has no key or left all chats, and none that
/// was silent for too long.
pub proof fn law_only_lively_contacts_are_informed(
    rows: Seq<Membership>,
    special: SpecialIds,
    alive_since: i64,
    id: u32,
)
    requires
        keyupdate::is_alive(rows, special, alive_since)(id),
    ensures
        exists|i: int|
            0 <= i < rows.len() && (#[trigger] rows[i]).contact_id == id && rows[i].counts(special),
        exists|i: int|
            0 <= i < rows.len() && (#[trigger] rows[i]).contact_id == id && rows[i].is_current(
                special,
            ) && rows[i].sign_of_life() > alive_since,
{
    lemma_freshness_is_shown(rows, special, id);
}

/// A filtered list without duplicates has none either.
proof fn lemma_filter(list: Seq<u32>, f: spec_fn(u32) -> bool)
    requires
        list.no_duplicates(),
    ensures
        list.filter(f).no_duplicates(),
        forall|x: u32| #[trigger] list.filter(f).contains(x) <==> list.contains(x) && f(x),
        forall|i: int| 0 <= i < list.filter(f).len() ==> f(#[trigger] list.filter(f)[i]),
    decreases list.len(),
{
    assert forall|x: u32| #[trigger] list.filter(f).contains(x) <==> list.contains(x) && f(x) by {
        order::lemma_filter_members(list, f, x);
    }
    assert forall|i: int| 0 <= i < list.filter(f).len() implies f(#[trigger] list.filter(f)[i]) by {
        list.lemma_filter_pred(f, i);
    }
    reveal(Seq::filter);
    if list.len() > 0 {
        let shorter = list.drop_last();
        let kept = shorter.filter(f);
        lemma_filter(shorter, f);
        assert forall|i: int| 0 <= i < kept.len() implies kept[i] != list.last() by {
            assert(kept.contains(kept[i]));
            let k = shorter.index_of(kept[i]);
            assert(list[k] == kept[i]);
        }
    }
}

} // verus!
