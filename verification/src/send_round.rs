//! One round through the queues: which messages and read receipts are sent, and in which order.

use vstd::prelude::*;

verus! {

/// What came of an action.
pub enum RoundEvent {
    /// Whether the rate limit allows to send.
    Ratelimit { can_send: bool },
    /// Status updates and synchronization messages were put into the queue.
    UpdatesQueued,
    /// The rows of the queue, by ascending identifier.
    Rows(Vec<i64>),
    /// The message was sent.
    RowSent,
    /// A read receipt was sent, or there was none. Whether there may be more.
    MdnSent { more: bool },
}

/// What is to be done.
#[derive(Clone, Copy, Debug, PartialEq, Eq, Structural)]
pub enum RoundAction {
    /// Ask whether the rate limit allows to send.
    CheckRatelimit,
    /// Put status updates and synchronization messages into the queue.
    QueueUpdates,
    /// Find the rows of the queue.
    LoadRows,
    /// Send the message of a row.
    SendRow(i64),
    /// Send a read receipt.
    SendMdn,
    /// Nothing more.
    Finish,
}

/// How far a round is.
pub enum SendRound {
    CheckingUpdates,
    QueueingUpdates,
    LoadingRows { ratelimited: bool },
    SendingRows { ratelimited: bool, rows: Vec<i64>, next: usize },
    CheckingMdns,
    SendingMdns,
    Done,
}

impl RoundEvent {
    /// Whether the event answers the action that a round waits for.
    pub open spec fn answers(&self, round: SendRound) -> bool {
        match round {
            SendRound::CheckingUpdates => self is Ratelimit,
            SendRound::QueueingUpdates => self is UpdatesQueued,
            SendRound::LoadingRows { .. } => self is Rows,
            SendRound::SendingRows { .. } => self is RowSent,
            SendRound::CheckingMdns => self is Ratelimit,
            SendRound::SendingMdns => self is MdnSent,
            SendRound::Done => false,
        }
    }
}

/// What follows the rows that were sent: the next row, or the read receipts. Receipts have to
/// wait for another round if the rate limit kept updates out of the queue, which are more
/// important.
pub open spec fn goes_on(
    ratelimited: bool,
    rows: Seq<i64>,
    next: int,
    after: SendRound,
    action: RoundAction,
) -> bool {
    if next < rows.len() {
        &&& after matches SendRound::SendingRows { ratelimited: l, rows: r, next: n }
        &&& l == ratelimited
        &&& r@ == rows
        &&& n == next
        &&& action == RoundAction::SendRow(rows[next])
    } else if ratelimited {
        after is Done && action is Finish
    } else {
        after is CheckingMdns && action is CheckRatelimit
    }
}

/// What a round does next.
pub open spec fn steps(
    before: SendRound,
    event: RoundEvent,
    after: SendRound,
    action: RoundAction,
) -> bool {
    match (before, event) {
        (SendRound::CheckingUpdates, RoundEvent::Ratelimit { can_send }) => if can_send {
            after is QueueingUpdates && action is QueueUpdates
        } else {
            after == (SendRound::LoadingRows { ratelimited: true }) && action is LoadRows
        },
        (SendRound::QueueingUpdates, RoundEvent::UpdatesQueued) => after == (
        SendRound::LoadingRows { ratelimited: false }) && action is LoadRows,
        (SendRound::LoadingRows { ratelimited }, RoundEvent::Rows(rows)) => goes_on(
            ratelimited,
            rows@,
            0,
            after,
            action,
        ),
        (SendRound::SendingRows { ratelimited, rows, next }, RoundEvent::RowSent) => goes_on(
            ratelimited,
            rows@,
            next + 1,
            after,
            action,
        ),
        (SendRound::CheckingMdns, RoundEvent::Ratelimit { can_send }) => if can_send {
            after is SendingMdns && action is SendMdn
        } else {
            after is Done && action is Finish
        },
        (SendRound::SendingMdns, RoundEvent::MdnSent { more }) => if more {
            after is CheckingMdns && action is CheckRatelimit
        } else {
            after is Done && action is Finish
        },
        _ => false,
    }
}

impl SendRound {
    /// The row that is being sent is one of the rows.
    pub open spec fn wf(&self) -> bool {
        self matches SendRound::SendingRows { rows, next, .. } ==> next < rows.len()
    }

    /// A new round.
    pub fn new() -> (r: (SendRound, RoundAction))
        ensures
            r.0 is CheckingUpdates,
            r.1 is CheckRatelimit,
    {
        (SendRound::CheckingUpdates, RoundAction::CheckRatelimit)
    }

    fn go_on(ratelimited: bool, rows: Vec<i64>, next: usize) -> (r: (SendRound, RoundAction))
        ensures
            r.0.wf(),
            goes_on(ratelimited, rows@, next as int, r.0, r.1),
    {
        if next < rows.len() {
            let row: i64 = rows[next];
            (SendRound::SendingRows { ratelimited, rows, next }, RoundAction::SendRow(row))
        } else if ratelimited {
            (SendRound::Done, RoundAction::Finish)
        } else {
            (SendRound::CheckingMdns, RoundAction::CheckRatelimit)
        }
    }

    /// Takes what came of the last action, and says what is to be done next.
    pub fn step(self, event: RoundEvent) -> (r: (SendRound, RoundAction))
        requires
            self.wf(),
            event.answers(self),
        ensures
            r.0.wf(),
            steps(self, event, r.0, r.1),
    {
        match (self, event) {
            (SendRound::CheckingUpdates, RoundEvent::Ratelimit { can_send }) => if can_send {
                (SendRound::QueueingUpdates, RoundAction::QueueUpdates)
            } else {
                (SendRound::LoadingRows { ratelimited: true }, RoundAction::LoadRows)
            },
            (SendRound::QueueingUpdates, RoundEvent::UpdatesQueued) => (
                SendRound::LoadingRows { ratelimited: false },
                RoundAction::LoadRows,
            ),
            (SendRound::LoadingRows { ratelimited }, RoundEvent::Rows(rows)) => Self::go_on(
                ratelimited,
                rows,
                0,
            ),
            (SendRound::SendingRows { ratelimited, rows, next }, RoundEvent::RowSent) => {
                Self::go_on(ratelimited, rows, next + 1)
            },
            (SendRound::CheckingMdns, RoundEvent::Ratelimit { can_send }) => if can_send {
                (SendRound::SendingMdns, RoundAction::SendMdn)
            } else {
                (SendRound::Done, RoundAction::Finish)
            },
            (SendRound::SendingMdns, RoundEvent::MdnSent { more }) => if more {
                (SendRound::CheckingMdns, RoundAction::CheckRatelimit)
            } else {
                (SendRound::Done, RoundAction::Finish)
            },
            _ => (SendRound::Done, RoundAction::Finish),
        }
    }
}

/// A course of a round: its states and the actions that led to them, and between each two states
/// the event.
pub struct RoundCourse {
    pub rounds: Seq<SendRound>,
    pub actions: Seq<RoundAction>,
    pub events: Seq<RoundEvent>,
}

impl RoundCourse {
    /// The round begins as a new one, and each step is one that a round takes.
    pub open spec fn valid(self) -> bool {
        &&& self.rounds.len() == self.events.len() + 1
        &&& self.actions.len() == self.events.len() + 1
        &&& self.rounds[0] is CheckingUpdates
        &&& self.actions[0] is CheckRatelimit
        &&& forall|i: int| #![trigger self.events[i]]
            0 <= i < self.events.len() ==> self.events[i].answers(self.rounds[i]) && steps(
                self.rounds[i],
                self.events[i],
                self.rounds[i + 1],
                self.actions[i + 1],
            )
    }
}

/// The rows that are sent.
pub open spec fn sent_rows(actions: Seq<RoundAction>) -> Seq<i64>
    decreases actions.len(),
{
    if actions.len() == 0 {
        Seq::empty()
    } else {
        let before = sent_rows(actions.drop_last());
        match actions.last() {
            RoundAction::SendRow(row) => before.push(row),
            _ => before,
        }
    }
}

/// The rows of a round that were found in the queue.
pub open spec fn found_rows(events: Seq<RoundEvent>) -> Option<Seq<i64>>
    decreases events.len(),
{
    if events.len() == 0 {
        None
    } else {
        match events.last() {
            RoundEvent::Rows(rows) => Some(rows@),
            _ => found_rows(events.drop_last()),
        }
    }
}

/// Whether the rate limit kept updates out of the queue.
pub open spec fn is_ratelimited(c: RoundCourse) -> bool {
    c.events.len() > 0 && c.events[0] == (RoundEvent::Ratelimit { can_send: false })
}

proof fn lemma_round(c: RoundCourse, i: int)
    requires
        c.valid(),
        0 <= i < c.rounds.len(),
    ensures
        match c.rounds[i] {
            SendRound::CheckingUpdates => i == 0,
            SendRound::QueueingUpdates => i > 0 && !is_ratelimited(c),
            SendRound::LoadingRows { ratelimited } => i > 0 && ratelimited == is_ratelimited(c),
            SendRound::SendingRows { ratelimited, rows, next } => {
                &&& i > 0
                &&& ratelimited == is_ratelimited(c)
                &&& next < rows@.len()
                &&& found_rows(c.events.take(i)) == Some(rows@)
                &&& sent_rows(c.actions.take(i + 1)) == rows@.take(next + 1)
            },
            SendRound::CheckingMdns => i > 0 && !is_ratelimited(c),
            SendRound::SendingMdns => i > 0 && !is_ratelimited(c),
            SendRound::Done => i > 0,
        },
        c.rounds[i] is CheckingUpdates || c.rounds[i] is QueueingUpdates
            || c.rounds[i] is LoadingRows ==> sent_rows(c.actions.take(i + 1)) == Seq::<
            i64,
        >::empty(),
        c.rounds[i] is CheckingMdns || c.rounds[i] is SendingMdns || c.rounds[i] is Done
            ==> found_rows(c.events.take(i)) == Some(sent_rows(c.actions.take(i + 1))),
        c.actions[i] is SendMdn ==> c.rounds[i] is SendingMdns,
        c.actions[i] is Finish ==> c.rounds[i] is Done,
    decreases i,
{
    assert(c.actions.take(i + 1).last() == c.actions[i]);
    if i == 0 {
        assert(c.actions.take(1).drop_last() =~= Seq::empty());
        reveal_with_fuel(sent_rows, 2);
    } else {
        lemma_round(c, i - 1);
        assert(c.events[i - 1].answers(c.rounds[i - 1]));
        if i > 1 {
            assert(c.events[0].answers(c.rounds[0]));
        }
        assert(c.actions.take(i + 1).drop_last() =~= c.actions.take(i));
        assert(c.events.take(i).drop_last() =~= c.events.take(i - 1));
        assert(c.events.take(i).last() == c.events[i - 1]);
        match c.rounds[i - 1] {
            SendRound::LoadingRows { .. } => {
                let rows = c.events[i - 1]->Rows_0;
                assert(rows@.take(0) =~= Seq::<i64>::empty());
                if rows@.len() > 0 {
                    assert(rows@.take(1) =~= rows@.take(0).push(rows@[0]));
                } else {
                    assert(rows@ =~= Seq::<i64>::empty());
                }
            },
            SendRound::SendingRows { rows, next, .. } => {
                if next + 1 < rows@.len() {
                    assert(rows@.take(next + 2) =~= rows@.take(next + 1).push(rows@[next + 1]));
                } else {
                    assert(rows@.take(next + 1) =~= rows@);
                }
            },
            _ => {},
        }
    }
}

/// A round that comes to its end has sent all rows that it found, in their order, each once.
pub proof fn law_round_sends_all_rows_in_order(c: RoundCourse)
    requires
        c.valid(),
        c.actions.last() is Finish,
    ensures
        found_rows(c.events) == Some(sent_rows(c.actions)),
{
    let n = c.rounds.len() - 1;
    lemma_round(c, n);
    assert(c.actions.take(n + 1) =~= c.actions);
    assert(c.events.take(n) =~= c.events);
}

/// Read receipts are only sent after all rows were, and not at all if the rate limit kept updates
/// out of the queue.
pub proof fn law_receipts_come_last(c: RoundCourse, i: int)
    requires
        c.valid(),
        0 <= i < c.actions.len(),
        c.actions[i] is SendMdn,
    ensures
        !is_ratelimited(c),
        found_rows(c.events.take(i)) == Some(sent_rows(c.actions.take(i + 1))),
{
    lemma_round(c, i);
}

/// Updates are put into the queue, and receipts are sent, exactly when the rate limit was asked
/// and allowed it. After each receipt it is asked again, as long as there may be more receipts.
pub proof fn law_rate_limit_is_respected(c: RoundCourse, i: int)
    requires
        c.valid(),
        0 <= i < c.events.len(),
    ensures
        c.events[i] matches RoundEvent::Ratelimit { can_send } ==> c.actions[i + 1] == if i == 0 {
            if can_send {
                RoundAction::QueueUpdates
            } else {
                RoundAction::LoadRows
            }
        } else {
            if can_send {
                RoundAction::SendMdn
            } else {
                RoundAction::Finish
            }
        },
        c.actions[i + 1] is SendMdn || c.actions[i + 1] is QueueUpdates ==> c.events[i] == (
        RoundEvent::Ratelimit { can_send: true }),
        c.events[i] is UpdatesQueued ==> c.actions[i + 1] is LoadRows,
        c.events[i] matches RoundEvent::MdnSent { more } ==> c.actions[i + 1] == if more {
            RoundAction::CheckRatelimit
        } else {
            RoundAction::Finish
        },
{
    lemma_round(c, i);
    assert(c.events[i].answers(c.rounds[i]));
}

/// A round ends only when the rate limit does not allow receipts, or there are none left; receipts
/// are not asked for if the rate limit kept updates out of the queue.
pub proof fn law_end_of_a_round(c: RoundCourse)
    requires
        c.valid(),
        c.actions.last() is Finish,
    ensures
        c.events.len() > 0,
        is_ratelimited(c) ==> c.events.last() is Rows || c.events.last() is RowSent,
        !is_ratelimited(c) ==> c.events.len() > 1 && (c.events.last() == (RoundEvent::Ratelimit {
            can_send: false,
        }) || c.events.last() == (RoundEvent::MdnSent { more: false })),
{
    let n = c.rounds.len() - 1;
    lemma_round(c, n);
    lemma_round(c, n - 1);
    assert(c.events[n - 1].answers(c.rounds[n - 1]));
    assert(c.events[0].answers(c.rounds[0]));
}

} // verus!
