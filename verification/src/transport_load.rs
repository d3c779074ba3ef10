//! Reading the transports of an account, and adding an empty one.

use vstd::prelude::*;

use crate::error::TransportError;
use crate::transport_store;
use crate::transport_store::{
    Entry, RemovedTransportData, TransportRow, TransportStore, Transports,
};

verus! {

/// A transport as it is sent to the other devices of the account.
pub struct SyncedTransport {
    /// Login parameters as entered, in JSON.
    pub entered_param: String,
    /// Login parameters as configured, in JSON.
    pub configured_param: String,
    /// When the transport was added.
    pub timestamp: i64,
    /// Always true; false was sent for transports that are to be removed.
    pub is_published: bool,
}

/// What is sent to the other devices of the account.
pub struct SyncData {
    pub transports: Vec<SyncedTransport>,
    pub removed_transports: Vec<RemovedTransportData>,
}

/// What another device learns of a transport.
pub struct Announcement {
    pub entered: Seq<char>,
    pub configured: Seq<char>,
    pub timestamp: i64,
    pub is_published: bool,
}

impl View for SyncedTransport {
    type V = Announcement;

    open spec fn view(&self) -> Announcement {
        Announcement {
            entered: self.entered_param@,
            configured: self.configured_param@,
            timestamp: self.timestamp,
            is_published: self.is_published,
        }
    }
}

/// The announcement of a row.
pub open spec fn announcement(row: TransportRow) -> Announcement {
    Announcement {
        entered: row.entered_param@,
        configured: row.configured_param@,
        timestamp: row.add_timestamp,
        is_published: true,
    }
}

/// Whether a row is announced. The first transport is not: it can only be created by the initial
/// configuration, so its credentials never leave the device.
pub open spec fn is_announced(row: TransportRow) -> bool {
    row.id > 1
}

/// The announcements of the rows.
pub open spec fn announcements(rows: Seq<TransportRow>) -> Seq<Announcement> {
    rows.filter(|row: TransportRow| is_announced(row)).map_values(
        |row: TransportRow| announcement(row),
    )
}

/// The views of a list.
pub open spec fn announced(list: Seq<SyncedTransport>) -> Seq<Announcement> {
    list.map_values(|t: SyncedTransport| t@)
}

/// Login parameters in JSON without servers and credentials.
pub open spec fn empty_param(addr: Seq<char>) -> Seq<char> {
    "{\"addr\":\""@ + addr
        + "\",\"imap\":[],\"imap_user\":\"\",\"imap_password\":\"\",\"smtp\":[],\"smtp_user\":\"\",\"smtp_password\":\"\",\"certificate_checks\":\"Automatic\",\"oauth2\":false}"@
}

impl Transports {
    /// The state after an empty transport was added; a known address is left as it is.
    pub open spec fn with_pseudo(
        self,
        addr: Seq<char>,
        entered: Seq<char>,
        timestamp: i64,
    ) -> Transports {
        if self.table.contains_key(addr) {
            self
        } else {
            Transports {
                table: self.table.insert(
                    addr,
                    Entry {
                        id: self.next_id as u32,
                        entered,
                        configured: empty_param(addr),
                        add_timestamp: timestamp,
                    },
                ),
                next_id: self.next_id + 1,
                ..self
            }
        }
    }
}

impl TransportStore {
    /// Identifier and login parameters of the transport of the sending address, `None` if the
    /// account is not configured.
    pub fn load(&self) -> (r: Result<Option<(u32, String)>, TransportError>)
        requires
            self.wf(),
        ensures
            match r {
                Ok(None) => self@.primary is None,
                Ok(Some((id, json))) => {
                    &&& self@.primary matches Some(addr)
                    &&& self@.table.contains_key(addr)
                    &&& self@.table[addr].id == id
                    &&& self@.table[addr].configured == json@
                },
                Err(e) => {
                    &&& self@.primary matches Some(addr)
                    &&& !self@.table.contains_key(addr)
                    &&& e matches TransportError::MissingTransport { self_addr }
                    &&& self_addr@ == addr
                },
            },
    {
        match &self.configured_addr {
            None => Ok(None),
            Some(addr) => match self.find_row(addr.as_str()) {
                Some(i) => Ok(Some((self.rows[i].id, self.rows[i].configured_param.clone()))),
                None => Err(TransportError::MissingTransport { self_addr: addr.clone() }),
            },
        }
    }

    /// Identifiers and login parameters of all transports, by ascending identifier.
    pub fn load_all(&self) -> (r: Vec<(u32, String)>)
        requires
            self.wf(),
        ensures
            r@ == self.rows@.map_values(|row: TransportRow| (row.id, row.configured_param)),
            forall|i: int, j: int|
                0 <= i < j < r@.len() ==> (#[trigger] r@[i]).0 < (#[trigger] r@[j]).0,
    {
        let mut r: Vec<(u32, String)> = Vec::new();
        for i in 0..self.rows.len()
            invariant
                r@.len() == i,
                forall|j: int|
                    0 <= j < i ==> #[trigger] r@[j] == (
                        self.rows@[j].id,
                        self.rows@[j].configured_param,
                    ),
        {
            r.push((self.rows[i].id, self.rows[i].configured_param.clone()));
        }
        assert(r@ =~= self.rows@.map_values(|row: TransportRow| (row.id, row.configured_param)));
        r
    }

    /// Adds a transport without servers and credentials, unless there is one for `addr`.
    /// `entered_param` are empty login parameters for the address, in JSON, and `add_timestamp`
    /// is what the table gives a row without a timestamp.
    pub fn add_pseudo_transport(&mut self, addr: &str, entered_param: String, add_timestamp: i64)
        requires
            old(self).wf(),
            old(self).next_id < u32::MAX,
        ensures
            final(self).wf(),
            final(self)@ == old(self)@.with_pseudo(addr@, entered_param@, add_timestamp),
    {
        if self.find_row(addr).is_none() {
            let mut configured_param = "{\"addr\":\"".to_owned();
            configured_param.append(addr);
            configured_param.append("\",\"imap\":[],\"imap_user\":\"\",\"imap_password\":\"\",\"smtp\":[],\"smtp_user\":\"\",\"smtp_password\":\"\",\"certificate_checks\":\"Automatic\",\"oauth2\":false}");
            let row = TransportRow {
                id: self.next_id,
                addr: addr.to_owned(),
                entered_param,
                configured_param,
                add_timestamp,
            };
            proof {
                transport_store::lemma_table_push(self.rows@, row);
            }
            self.rows.push(row);
            self.next_id = self.next_id + 1;
        }
        assert(self@ =~= old(self)@.with_pseudo(addr@, entered_param@, add_timestamp));
    }

    /// What is sent to the other devices: all transports but the first one, and all removals.
    pub fn sync_data(&self) -> (r: SyncData)
        ensures
            announced(r.transports@) == announcements(self.rows@),
            transport_store::listed_removals(r.removed_transports@)
                == transport_store::listed_removals(self.removed@),
    {
        let mut transports: Vec<SyncedTransport> = Vec::new();
        let ghost rows = self.rows@;
        let ghost chosen = |row: TransportRow| is_announced(row);
        let ghost f = |row: TransportRow| announcement(row);
        assert(rows.take(0).filter(chosen) =~= Seq::<TransportRow>::empty());
        assert(announced(transports@) =~= announcements(rows.take(0)));
        for i in 0..self.rows.len()
            invariant
                rows == self.rows@,
                chosen == (|row: TransportRow| is_announced(row)),
                f == (|row: TransportRow| announcement(row)),
                announced(transports@) == announcements(rows.take(i as int)),
        {
            let row = &self.rows[i];
            proof {
                assert(rows.take(i + 1) =~= rows.take(i as int).push(*row));
                rows.take(i as int).lemma_filter_push(*row, chosen);
            }
            if row.id > 1 {
                let ghost before = transports@;
                transports.push(
                    SyncedTransport {
                        entered_param: row.entered_param.clone(),
                        configured_param: row.configured_param.clone(),
                        timestamp: row.add_timestamp,
                        is_published: true,
                    },
                );
                proof {
                    let kept = rows.take(i as int).filter(chosen);
                    assert(kept.push(*row).map_values(f) =~= kept.map_values(f).push(f(*row)));
                    assert(announced(transports@) =~= announced(before).push(f(*row)));
                }
            }
        }
        assert(rows.take(rows.len() as int) =~= rows);
        let mut removed_transports: Vec<RemovedTransportData> = Vec::new();
        for i in 0..self.removed.len()
            invariant
                removed_transports@.len() == i,
                forall|j: int|
                    0 <= j < i ==> (#[trigger] removed_transports@[j]).removal()
                        == self.removed@[j].removal(),
        {
            removed_transports.push(
                RemovedTransportData {
                    addr: self.removed[i].addr.clone(),
                    timestamp: self.removed[i].timestamp,
                },
            );
        }
        assert(transport_store::listed_removals(removed_transports@)
            =~= transport_store::listed_removals(self.removed@));
        SyncData { transports, removed_transports }
    }
}

/// A valid store represents a valid state.
pub proof fn law_store_is_a_valid_state(store: TransportStore)
    requires
        store.wf(),
    ensures
        store@.wf(),
        store@.table.dom().len() == store.rows@.len(),
{
    transport_store::lemma_table_len(store.rows@);
    let table = store@.table;
    assert forall|a: Seq<char>| #[trigger] table.contains_key(a) implies table[a].id
        < store@.next_id by {
        let i = transport_store::lemma_table_row_of(store.rows@, a);
    }
    assert forall|a: Seq<char>, b: Seq<char>| #[trigger]
        table.contains_key(a) && #[trigger] table.contains_key(b) && a != b implies table[a].id
        != table[b].id by {
        let i = transport_store::lemma_table_row_of(store.rows@, a);
        let j = transport_store::lemma_table_row_of(store.rows@, b);
        assert(store.rows@[i].id != store.rows@[j].id);
    }
}

/// Nothing of the first transport is sent to other devices: what is sent is the same without it.
pub proof fn law_first_transport_is_not_announced(
    before: Seq<TransportRow>,
    first: TransportRow,
    after: Seq<TransportRow>,
)
    requires
        first.id <= 1,
    ensures
        announcements(before + seq![first] + after) == announcements(before + after),
{
    let chosen = |row: TransportRow| is_announced(row);
    Seq::filter_distributes_over_add(before + seq![first], after, chosen);
    Seq::filter_distributes_over_add(before, seq![first], chosen);
    Seq::filter_distributes_over_add(before, after, chosen);
    assert(seq![first] =~= Seq::<TransportRow>::empty().push(first));
    Seq::<TransportRow>::empty().lemma_filter_push(first, chosen);
    assert(Seq::<TransportRow>::empty().filter(chosen) =~= Seq::<TransportRow>::empty());
    assert((before + seq![first] + after).filter(chosen) =~= (before + after).filter(chosen));
}

/// Every transport but the first is sent to the other devices, published, with its parameters and
/// the time when it was added; and nothing else is sent.
pub proof fn law_other_transports_are_announced(rows: Seq<TransportRow>, i: int)
    ensures
        0 <= i < rows.len() && rows[i].id > 1 ==> exists|k: int|
            0 <= k < announcements(rows).len() && (#[trigger] announcements(rows)[k]).entered
                == rows[i].entered_param@ && announcements(rows)[k].configured
                == rows[i].configured_param@ && announcements(rows)[k].timestamp
                == rows[i].add_timestamp && announcements(rows)[k].is_published,
        0 <= i < announcements(rows).len() ==> exists|k: int|
            0 <= k < rows.len() && (#[trigger] rows[k]).id > 1 && announcements(rows)[i].entered
                == rows[k].entered_param@ && announcements(rows)[i].configured
                == rows[k].configured_param@ && announcements(rows)[i].timestamp
                == rows[k].add_timestamp && announcements(rows)[i].is_published,
{
    let chosen = |row: TransportRow| is_announced(row);
    let kept = rows.filter(chosen);
    let sent = announcements(rows);
    if 0 <= i < rows.len() && rows[i].id > 1 {
        crate::order::lemma_filter_members(rows, chosen, rows[i]);
        let k = kept.index_of(rows[i]);
        assert(sent[k] == announcement(rows[i]));
    }
    if 0 <= i < sent.len() {
        assert(kept.contains(kept[i]));
        crate::order::lemma_filter_members(rows, chosen, kept[i]);
        let k = rows.index_of(kept[i]);
        assert(sent[i] == announcement(rows[k]));
    }
}

/// The transports are announced in their order, each once.
pub proof fn law_announcements_keep_their_order(
    a: Seq<TransportRow>,
    b: Seq<TransportRow>,
    row: TransportRow,
)
    ensures
        announcements(a + b) == announcements(a) + announcements(b),
        announcements(seq![row]).len() == if row.id > 1 {
            1nat
        } else {
            0nat
        },
{
    let chosen = |r: TransportRow| is_announced(r);
    let f = |r: TransportRow| announcement(r);
    Seq::filter_distributes_over_add(a, b, chosen);
    assert((a.filter(chosen) + b.filter(chosen)).map_values(f) =~= a.filter(chosen).map_values(f)
        + b.filter(chosen).map_values(f));
    let none = Seq::<TransportRow>::empty();
    assert(seq![row] =~= none.push(row));
    none.lemma_filter_push(row, chosen);
    assert(none.filter(chosen) =~= none);
}

/// An announcement is seen as it is.
pub proof fn law_announcement_is_seen_as_it_is(list: Seq<SyncedTransport>, i: int)
    requires
        0 <= i < list.len(),
    ensures
        announced(list).len() == list.len(),
        announced(list)[i].entered == list[i].entered_param@,
        announced(list)[i].configured == list[i].configured_param@,
        announced(list)[i].timestamp == list[i].timestamp,
        announced(list)[i].is_published == list[i].is_published,
{
}

/// Adding an empty transport leaves a known address as it is. A new one gets the next identifier
/// and the given parameters and time, and nothing else changes.
pub proof fn law_empty_transport_is_added_once(
    s: Transports,
    addr: Seq<char>,
    entered: Seq<char>,
    timestamp: i64,
)
    requires
        0 <= s.next_id <= u32::MAX,
    ensures
        ({
            let t = s.with_pseudo(addr, entered, timestamp);
            &&& s.table.contains_key(addr) ==> t == s
            &&& !s.table.contains_key(addr) ==> {
                &&& t.table[addr].id == s.next_id
                &&& t.table[addr].entered == entered
                &&& t.table[addr].add_timestamp == timestamp
                &&& ("{\"addr\":\""@ + addr + "\",\"imap\":[]"@).is_prefix_of(
                    t.table[addr].configured,
                )
                &&& t.next_id == s.next_id + 1
            }
            &&& t.table.contains_key(addr)
            &&& forall|a: Seq<char>|
                a != addr ==> #[trigger] t.table.contains_key(a) == s.table.contains_key(a)
            &&& forall|a: Seq<char>|
                a != addr && #[trigger] s.table.contains_key(a) ==> t.table[a] == s.table[a]
            &&& t.removed == s.removed
            &&& t.primary == s.primary
        }),
{
    let configured = empty_param(addr);
    let start = "{\"addr\":\""@ + addr + "\",\"imap\":[]"@;
    reveal_strlit("\",\"imap\":[]");
    reveal_strlit("\",\"imap\":[],\"imap_user\":\"\",\"imap_password\":\"\",\"smtp\":[],\"smtp_user\":\"\",\"smtp_password\":\"\",\"certificate_checks\":\"Automatic\",\"oauth2\":false}");
    assert(configured.subrange(0, start.len() as int) =~= start);
}

} // verus!
