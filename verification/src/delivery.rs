//! Whom a message is sent to, and in which portions.

use vstd::prelude::*;

use crate::address;
use crate::order;
use crate::smtp::SmtpError;
use crate::text;
use crate::text_set;
use crate::text_set::TextSet;

verus! {

/// The addresses other than `from`.
pub open spec fn except(addrs: Seq<Seq<char>>, from: Seq<char>) -> Seq<Seq<char>> {
    addrs.filter(differs_from(from))
}

/// Whether an address is not `from`.
pub open spec fn differs_from(from: Seq<char>) -> spec_fn(Seq<char>) -> bool {
    |a: Seq<char>| a != from
}

/// The own addresses that get a copy of a message. An unencrypted message only goes to the
/// address it is sent from, as relays do not accept it elsewhere; and that address comes last,
/// since a message counts as delivered once it arrives there.
pub open spec fn self_recipients(
    self_addrs: Seq<Seq<char>>,
    encrypted: bool,
    from: Seq<char>,
) -> Seq<Seq<char>> {
    (if encrypted {
        except(self_addrs, from)
    } else {
        Seq::empty()
    }).push(from)
}

/// Adds the own addresses to `recipients`.
pub fn add_self_recipients(
    recipients: &mut Vec<String>,
    encrypted: bool,
    self_addrs: &Vec<String>,
    from: String,
)
    ensures
        text::texts(final(recipients)@) == text::texts(old(recipients)@) + self_recipients(
            text::texts(self_addrs@),
            encrypted,
            from@,
        ),
{
    let ghost start = text::texts(recipients@);
    let ghost addrs = text::texts(self_addrs@);
    let ghost others = differs_from(from@);
    if encrypted {
        assert(addrs.take(0).filter(others) =~= Seq::<Seq<char>>::empty());
        assert(start + addrs.take(0).filter(others) =~= start);
        for i in 0..self_addrs.len()
            invariant
                addrs == text::texts(self_addrs@),
                others == differs_from(from@),
                text::texts(recipients@) == start + addrs.take(i as int).filter(others),
        {
            proof {
                assert(addrs.take(i + 1) =~= addrs.take(i as int).push(addrs[i as int]));
                addrs.take(i as int).lemma_filter_push(addrs[i as int], others);
            }
            if !text::same_text(self_addrs[i].as_str(), from.as_str()) {
                let ghost before = recipients@;
                recipients.push(self_addrs[i].clone());
                proof {
                    assert(text::texts(recipients@) =~= text::texts(before).push(addrs[i as int]));
                    assert(start + addrs.take(i + 1).filter(others) =~= (start + addrs.take(
                        i as int,
                    ).filter(others)).push(addrs[i as int]));
                }
            }
        }
        assert(addrs.take(addrs.len() as int) =~= addrs);
    }
    let ghost before = recipients@;
    recipients.push(from);
    proof {
        assert(text::texts(recipients@) =~= text::texts(before).push(from@));
        assert(text::texts(recipients@) =~= start + self_recipients(addrs, encrypted, from@));
    }
}

/// The addresses that a message still has to be sent to: those that it was not sent to, without
/// the ones that no server accepts.
pub open spec fn pending_recipients(
    recipients: Seq<Seq<char>>,
    sent_to: Set<Seq<char>>,
) -> Seq<Seq<char>> {
    address::valid_addresses(recipients.filter(|a: Seq<char>| !sent_to.contains(a)))
}

fn drop_sent(recipients: &Vec<String>, sent_to: &TextSet) -> (r: Vec<String>)
    ensures
        text::texts(r@) == text::texts(recipients@).filter(
            |a: Seq<char>| !sent_to@.contains(a),
        ),
{
    let mut kept: Vec<String> = Vec::new();
    let ghost all = text::texts(recipients@);
    let ghost unsent = |a: Seq<char>| !sent_to@.contains(a);
    assert(all.take(0).filter(unsent) =~= Seq::<Seq<char>>::empty());
    assert(text::texts(kept@) =~= all.take(0).filter(unsent));
    for i in 0..recipients.len()
        invariant
            all == text::texts(recipients@),
            unsent == (|a: Seq<char>| !sent_to@.contains(a)),
            text::texts(kept@) == all.take(i as int).filter(unsent),
    {
        proof {
            assert(all.take(i + 1) =~= all.take(i as int).push(all[i as int]));
            all.take(i as int).lemma_filter_push(all[i as int], unsent);
        }
        if !sent_to.contains(recipients[i].as_str()) {
            let ghost before = kept@;
            kept.push(recipients[i].clone());
            assert(text::texts(kept@) =~= text::texts(before).push(all[i as int]));
        }
    }
    assert(all.take(all.len() as int) =~= all);
    kept
}

/// The delivery of one message: the recipients are served in portions, and the addresses that
/// were handed to the server are remembered.
pub struct Delivery {
    recipients: Vec<String>,
    done: usize,
    in_flight: usize,
    sent_to: TextSet,
    limit: u32,
}

/// How far a delivery is.
pub struct Progress {
    /// The addresses to send to.
    pub recipients: Seq<Seq<char>>,
    /// To how many of them the message was sent.
    pub done: int,
    /// To how many of the following ones it is being sent.
    pub in_flight: int,
    /// The addresses that the message was sent to or is being sent to.
    pub sent_to: Set<Seq<char>>,
    /// How many addresses the server takes at once.
    pub limit: u32,
}

impl View for Delivery {
    type V = Progress;

    closed spec fn view(&self) -> Progress {
        Progress {
            recipients: text::texts(self.recipients@),
            done: self.done as int,
            in_flight: self.in_flight as int,
            sent_to: self.sent_to@,
            limit: self.limit,
        }
    }
}

impl Progress {
    /// The portion that is being sent.
    pub open spec fn chunk(self) -> Seq<Seq<char>> {
        self.recipients.subrange(self.done, self.done + self.in_flight)
    }

    /// How many recipients are in no portion yet.
    pub open spec fn rest(self) -> int {
        self.recipients.len() - self.done - self.in_flight
    }

    /// The start of a delivery. A server that takes no address at all is given one at a time.
    pub open spec fn start(
        recipients: Seq<Seq<char>>,
        sent_to: Set<Seq<char>>,
        limit: u32,
    ) -> Progress {
        Progress {
            recipients: pending_recipients(recipients, sent_to),
            done: 0,
            in_flight: 0,
            sent_to,
            limit: if limit == 0 {
                1
            } else {
                limit
            },
        }
    }

    /// The state with the next portion under way.
    pub open spec fn with_next_chunk(self) -> Progress {
        let from = self.done + self.in_flight;
        let left = self.recipients.len() - from;
        let size = if self.limit <= left {
            self.limit as int
        } else {
            left
        };
        Progress {
            done: from,
            in_flight: size,
            sent_to: self.sent_to.union(self.recipients.subrange(from, from + size).to_set()),
            ..self
        }
    }
}

impl Delivery {
    /// The portion under way is a part of the list, and the limit is positive.
    pub closed spec fn wf(&self) -> bool {
        &&& self.done + self.in_flight <= self.recipients.len()
        &&& self.limit >= 1
        &&& self.sent_to.wf()
    }

    /// What holds of every delivery.
    pub proof fn lemma_wf(&self)
        requires
            self.wf(),
        ensures
            0 <= self@.done,
            0 <= self@.in_flight,
            0 <= self@.rest(),
            self@.limit >= 1,
    {
    }

    /// Starts the delivery to the `recipients` that are not among `sent_to`. The server takes
    /// `limit` addresses at once.
    pub fn new(recipients: &Vec<String>, sent_to: &Vec<String>, limit: u32) -> (r: Delivery)
        ensures
            r.wf(),
            r@ == Progress::start(
                text::texts(recipients@),
                text::texts(sent_to@).to_set(),
                limit,
            ),
    {
        let sent_to = TextSet::from_list(sent_to);
        let recipients = address::keep_valid(&drop_sent(recipients, &sent_to));
        let limit: u32 = if limit == 0 {
            1
        } else {
            limit
        };
        Delivery { recipients, done: 0, in_flight: 0, sent_to, limit }
    }

    /// Takes note that the portion under way was sent, and returns the next one.
    pub fn next_chunk(&mut self) -> (r: Result<Vec<String>, SmtpError>)
        requires
            old(self).wf(),
        ensures
            final(self).wf(),
            match r {
                Ok(chunk) => {
                    &&& old(self)@.rest() <= u32::MAX
                    &&& final(self)@ == old(self)@.with_next_chunk()
                    &&& text::texts(chunk@) == final(self)@.chunk()
                },
                Err(e) => {
                    &&& old(self)@.rest() > u32::MAX
                    &&& e is TooManyRecipients
                    &&& *final(self) == *old(self)
                },
            },
    {
        let from: usize = self.done + self.in_flight;
        let left: usize = self.recipients.len() - from;
        if left > 0xffff_ffff {
            return Err(SmtpError::TooManyRecipients);
        }
        let size: usize = if self.limit as usize <= left {
            self.limit as usize
        } else {
            left
        };
        let ghost before = self@;
        let mut chunk: Vec<String> = Vec::new();
        assert(before.recipients.subrange(from as int, from as int).to_set()
            =~= Set::<Seq<char>>::empty());
        assert(self.sent_to@ =~= before.sent_to.union(
            before.recipients.subrange(from as int, from as int).to_set(),
        ));
        for i in 0..size
            invariant
                from + size <= self.recipients.len(),
                self.sent_to.wf(),
                self.recipients == old(self).recipients,
                self.limit == old(self).limit,
                text::texts(self.recipients@) == before.recipients,
                text::texts(chunk@) == before.recipients.subrange(from as int, from + i),
                self.sent_to@ == before.sent_to.union(
                    before.recipients.subrange(from as int, from + i).to_set(),
                ),
        {
            let addr = self.recipients[from + i].clone();
            let ghost sofar = before.recipients.subrange(from as int, from + i);
            let ghost before_chunk = chunk@;
            chunk.push(addr.clone());
            self.sent_to.insert(addr);
            proof {
                assert(before.recipients[from + i] == addr@);
                assert(before.recipients.subrange(from as int, from + i + 1) =~= sofar.push(addr@));
                assert(text::texts(chunk@) =~= text::texts(before_chunk).push(addr@));
                sofar.lemma_push_to_set_commute(addr@);
                assert(before.sent_to.union(sofar.to_set()).insert(addr@) =~= before.sent_to.union(
                    sofar.to_set().insert(addr@),
                ));
            }
        }
        self.done = from;
        self.in_flight = size;
        Ok(chunk)
    }

    /// Whether there are recipients beyond the portion under way.
    pub fn has_rest(&self) -> (r: bool)
        requires
            self.wf(),
        ensures
            r == (self@.rest() > 0),
    {
        self.done + self.in_flight < self.recipients.len()
    }

    /// The addresses that the message was sent to, as they are stored.
    pub fn sent_to_text(&self) -> (r: String)
        requires
            self.wf(),
        ensures
            r@ == text::joined(text_set::listing(self@.sent_to), " "@),
    {
        self.sent_to.join(" ")
    }

    /// The number of addresses that the message was sent to.
    pub fn sent_to_count(&self) -> (r: usize)
        requires
            self.wf(),
        ensures
            r == self@.sent_to.len(),
    {
        self.sent_to.len()
    }
}

impl Progress {
    /// The state after `n` portions were begun.
    pub open spec fn after_chunks(self, n: nat) -> Progress
        decreases n,
    {
        if n == 0 {
            self
        } else {
            self.after_chunks((n - 1) as nat).with_next_chunk()
        }
    }

    /// The first `n` portions.
    pub open spec fn chunks(self, n: nat) -> Seq<Seq<Seq<char>>> {
        Seq::new(n, |i: int| self.after_chunks((i + 1) as nat).chunk())
    }

    /// Nothing is under way yet.
    pub open spec fn is_start(self) -> bool {
        self.done == 0 && self.in_flight == 0 && self.limit >= 1
    }
}

proof fn lemma_after_chunks(p: Progress, n: nat)
    requires
        p.is_start(),
    ensures
        ({
            let q = p.after_chunks(n);
            &&& q.recipients == p.recipients
            &&& q.limit == p.limit
            &&& 0 <= q.done
            &&& 0 <= q.in_flight <= p.limit
            &&& q.done + q.in_flight == if n * p.limit <= p.recipients.len() {
                n * p.limit
            } else {
                p.recipients.len() as int
            }
            &&& q.sent_to == p.sent_to.union(p.recipients.take(q.done + q.in_flight).to_set())
            &&& p.chunks(n).flatten() == p.recipients.take(q.done + q.in_flight)
        }),
    decreases n,
{
    if n == 0 {
        assert(p.recipients.take(0).to_set() =~= Set::<Seq<char>>::empty());
        assert(p.sent_to.union(p.recipients.take(0).to_set()) =~= p.sent_to);
        assert(p.chunks(0) =~= Seq::empty());
        assert(0 * p.limit == 0) by (nonlinear_arith);
        assert(p.recipients.take(0) =~= Seq::empty());
    } else {
        let m = (n - 1) as nat;
        lemma_after_chunks(p, m);
        let b = p.after_chunks(m);
        let q = p.after_chunks(n);
        assert(n * p.limit == m * p.limit + p.limit) by (nonlinear_arith)
            requires
                n == m + 1,
        ;
        let from = b.done + b.in_flight;
        let upto = q.done + q.in_flight;
        let chunk = p.recipients.subrange(from, upto);
        assert(p.recipients.take(upto) =~= p.recipients.take(from) + chunk);
        assert(p.recipients.take(upto).to_set() =~= p.recipients.take(from).to_set().union(
            chunk.to_set(),
        )) by {
            vstd::seq_lib::seq_to_set_distributes_over_add(p.recipients.take(from), chunk);
        }
        assert(q.sent_to =~= p.sent_to.union(p.recipients.take(upto).to_set()));
        assert(q.chunk() == chunk);
        assert(p.chunks(n) =~= p.chunks(m).push(chunk));
        p.chunks(m).lemma_flatten_push(chunk);
    }
}

/// The portions of a delivery are the pending recipients, cut into pieces: every recipient is in
/// exactly one portion, no portion is larger than the server takes, and no more portions are
/// needed than the limit asks for.
pub proof fn law_portions_cover_the_recipients(p: Progress, n: nat)
    requires
        p.is_start(),
        n * p.limit >= p.recipients.len(),
    ensures
        p.chunks(n).flatten() == p.recipients,
        forall|i: int| 0 <= i < n ==> (#[trigger] p.chunks(n)[i]).len() <= p.limit,
        p.after_chunks(n).rest() == 0,
        p.after_chunks(n).sent_to == p.sent_to.union(p.recipients.to_set()),
{
    lemma_after_chunks(p, n);
    assert(p.recipients.take(p.recipients.len() as int) =~= p.recipients);
    assert forall|i: int| 0 <= i < n implies (#[trigger] p.chunks(n)[i]).len() <= p.limit by {
        lemma_after_chunks(p, (i + 1) as nat);
    }
}

/// As long as recipients are left, the next portion is not empty.
pub proof fn law_every_portion_makes_progress(p: Progress, n: nat)
    requires
        p.is_start(),
        p.after_chunks(n).rest() > 0,
    ensures
        p.after_chunks(n + 1).in_flight > 0,
        p.after_chunks(n + 1).rest() < p.after_chunks(n).rest(),
{
    lemma_after_chunks(p, n);
}

/// A message goes to exactly those recipients that it was not sent to and that a server accepts.
pub proof fn law_pending_recipients(recipients: Seq<Seq<char>>, sent_to: Set<Seq<char>>)
    ensures
        forall|a: Seq<char>| #[trigger]
            pending_recipients(recipients, sent_to).contains(a) <==> recipients.contains(a)
                && !sent_to.contains(a) && address::valid_address(a),
{
    let unsent = |a: Seq<char>| !sent_to.contains(a);
    let valid = |a: Seq<char>| address::valid_address(a);
    let kept = recipients.filter(unsent);
    assert forall|a: Seq<char>| #[trigger]
        pending_recipients(recipients, sent_to).contains(a) <==> recipients.contains(a)
            && !sent_to.contains(a) && address::valid_address(a) by {
        order::lemma_filter_members(recipients, unsent, a);
        order::lemma_filter_members(kept, valid, a);
    }
}

/// Whom a message was sent to is stored after each portion, and nobody of them gets it again when
/// the message is taken up later, whatever its recipients are then. `stored` is what was stored
/// before the portions were sent.
pub proof fn law_nobody_is_served_again(
    recipients: Seq<Seq<char>>,
    stored: Seq<char>,
    limit: u32,
    n: nat,
    later: Seq<Seq<char>>,
)
    requires
        Progress::start(recipients, text::stored_list(stored).to_set(), limit).after_chunks(
            n,
        ).sent_to != set![Seq::<char>::empty()],
    ensures
        ({
            let p = Progress::start(
                recipients,
                text::stored_list(stored).to_set(),
                limit,
            ).after_chunks(n);
            let loaded = text::stored_list(
                text::joined(text_set::listing(p.sent_to), " "@),
            ).to_set();
            &&& loaded == p.sent_to
            &&& forall|a: Seq<char>| #[trigger]
                p.sent_to.contains(a) ==> !pending_recipients(later, loaded).contains(a)
        }),
{
    reveal_strlit(" ");
    assert(" "@ =~= seq![' ']);
    let known = text::stored_list(stored).to_set();
    let begin = Progress::start(recipients, known, limit);
    let p = begin.after_chunks(n);
    let list = text_set::listing(p.sent_to);
    lemma_after_chunks(begin, n);
    let served = begin.recipients.take(p.done + p.in_flight);
    assert(p.sent_to.finite());
    text_set::lemma_listing_of(p.sent_to);
    text::lemma_pieces_free(stored, ' ');
    law_pending_recipients(recipients, known);
    assert forall|i: int| 0 <= i < list.len() implies !(#[trigger] list[i]).contains(' ') by {
        assert(list.to_set().contains(list[i]));
        if served.contains(list[i]) {
            let k = served.index_of(list[i]);
            assert(begin.recipients.contains(begin.recipients[k]));
            assert(address::valid_address(list[i]));
        } else {
            assert(known.contains(list[i]));
            assert(text::stored_list(stored).contains(list[i]));
        }
    }
    if list == seq![Seq::<char>::empty()] {
        assert(list[0] == Seq::<char>::empty());
        assert forall|x: Seq<char>| p.sent_to.contains(x) == (x == Seq::<char>::empty()) by {
            assert(list.to_set().contains(x) == list.contains(x));
        }
        assert(p.sent_to =~= set![Seq::<char>::empty()]);
    }
    text::lemma_stored_list_round_trip(list);
    law_pending_recipients(later, p.sent_to);
}

/// The address that is sent from comes last, and for an unencrypted message it is the only own
/// address.
pub proof fn law_sender_comes_last(self_addrs: Seq<Seq<char>>, from: Seq<char>)
    ensures
        self_recipients(self_addrs, true, from).last() == from,
        self_recipients(self_addrs, false, from) == seq![from],
        forall|a: Seq<char>| #[trigger]
            self_addrs.contains(a) ==> self_recipients(self_addrs, true, from).contains(a),
{
    let kept = except(self_addrs, from);
    let all = self_recipients(self_addrs, true, from);
    assert(all[kept.len() as int] == from);
    assert forall|a: Seq<char>| #[trigger] self_addrs.contains(a) implies all.contains(a) by {
        order::lemma_filter_members(self_addrs, differs_from(from), a);
        if a != from {
            let k = kept.index_of(a);
            assert(all[k] == a);
        }
    }
    assert(self_recipients(self_addrs, false, from) =~= seq![from]);
}

proof fn lemma_single_filter<A>(x: A, f: spec_fn(A) -> bool)
    ensures
        seq![x].filter(f) == if f(x) {
            seq![x]
        } else {
            Seq::empty()
        },
{
    let none = Seq::<A>::empty();
    assert(seq![x] =~= none.push(x));
    none.lemma_filter_push(x, f);
    assert(none.filter(f) =~= none);
}

/// A message goes to its recipients in their order: each of them is served or left out on its own,
/// whoever comes before or after.
pub proof fn law_pending_recipients_keep_their_order(
    a: Seq<Seq<char>>,
    b: Seq<Seq<char>>,
    x: Seq<char>,
    sent_to: Set<Seq<char>>,
)
    ensures
        pending_recipients(a + b, sent_to) == pending_recipients(a, sent_to) + pending_recipients(
            b,
            sent_to,
        ),
        pending_recipients(seq![x], sent_to) == if !sent_to.contains(x) && address::valid_address(
            x,
        ) {
            seq![x]
        } else {
            Seq::empty()
        },
{
    let unsent = |y: Seq<char>| !sent_to.contains(y);
    let valid = |y: Seq<char>| address::valid_address(y);
    Seq::filter_distributes_over_add(a, b, unsent);
    Seq::filter_distributes_over_add(a.filter(unsent), b.filter(unsent), valid);
    lemma_single_filter(x, unsent);
    lemma_single_filter(x, valid);
    assert(Seq::<Seq<char>>::empty().filter(valid) =~= Seq::empty());
}

/// The own addresses that get a copy are exactly the address that is sent from and, if the message
/// is encrypted, the other own addresses in their order. The former comes last and only there.
pub proof fn law_own_copies(
    self_addrs: Seq<Seq<char>>,
    more: Seq<Seq<char>>,
    encrypted: bool,
    from: Seq<char>,
    a: Seq<char>,
)
    ensures
        ({
            let copies = self_recipients(self_addrs, encrypted, from);
            &&& copies.contains(a) <==> a == from || (encrypted && self_addrs.contains(a))
            &&& copies.len() > 0
            &&& copies.last() == from
            &&& !copies.drop_last().contains(from)
            &&& self_recipients(self_addrs + more, encrypted, from) == copies.drop_last()
                + self_recipients(more, encrypted, from)
        }),
{
    let copies = self_recipients(self_addrs, encrypted, from);
    let others = differs_from(from);
    let kept = except(self_addrs, from);
    Seq::filter_distributes_over_add(self_addrs, more, others);
    order::lemma_filter_members(self_addrs, others, a);
    order::lemma_filter_members(self_addrs, others, from);
    assert(copies.drop_last() =~= if encrypted {
        kept
    } else {
        Seq::empty()
    });
    assert(copies.last() == from);
    if copies.contains(a) && a != from {
        let k = copies.index_of(a);
        assert(copies.drop_last()[k] == a);
    }
    if a == from {
        assert(copies[copies.len() - 1] == a);
    }
    if encrypted && kept.contains(a) {
        assert(copies[kept.index_of(a)] == a);
    }
    assert(self_recipients(self_addrs + more, encrypted, from) =~= copies.drop_last()
        + self_recipients(more, encrypted, from));
}

/// A delivery begins with nothing under way and with what the message was sent to before. The
/// server is given as many addresses at once as it takes, but at least one.
pub proof fn law_delivery_begins(recipients: Seq<Seq<char>>, sent_to: Set<Seq<char>>, limit: u32)
    ensures
        ({
            let p = Progress::start(recipients, sent_to, limit);
            &&& p.done == 0
            &&& p.in_flight == 0
            &&& p.sent_to == sent_to
            &&& p.limit >= 1
            &&& limit >= 1 ==> p.limit == limit
            &&& limit == 0 ==> p.limit == 1
            &&& p.chunk().len() == 0
            &&& p.rest() == p.recipients.len()
        }),
{
}

/// The next portion is the next part of the recipients, as long as the limit or up to the end, and
/// is added to those that the message was sent to.
pub proof fn law_next_portion(p: Progress, a: Seq<char>)
    requires
        0 <= p.done,
        0 <= p.in_flight,
        p.done + p.in_flight <= p.recipients.len(),
    ensures
        ({
            let q = p.with_next_chunk();
            let from = p.done + p.in_flight;
            &&& q.recipients == p.recipients
            &&& q.limit == p.limit
            &&& q.done == from
            &&& q.chunk().len() <= p.limit
            &&& q.chunk().len() == p.limit || from + q.chunk().len() == p.recipients.len()
            &&& q.chunk() == p.recipients.subrange(from, from + q.chunk().len())
            &&& q.rest() == p.recipients.len() - from - q.chunk().len()
            &&& q.sent_to.contains(a) <==> p.sent_to.contains(a) || q.chunk().contains(a)
        }),
{
}

} // verus!
