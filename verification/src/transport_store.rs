//! The transports of an account: the `transports` and `removed_transports` tables,
//! and the address that mail is sent from.

use vstd::prelude::*;

use crate::error::TransportError;
use crate::text::{contains_text, same_text, texts};

verus! {

/// A row of the `transports` table.
pub struct TransportRow {
    /// Identifier of the row. Later rows have larger identifiers.
    pub id: u32,
    /// Normalized address, unique in the table.
    pub addr: String,
    /// Login parameters as entered, in JSON.
    pub entered_param: String,
    /// Login parameters as configured, in JSON.
    pub configured_param: String,
    /// When the transport was added or promoted last.
    pub add_timestamp: i64,
}

/// A row of the `removed_transports` table, which is also how removals are synchronized.
pub struct RemovedTransportData {
    /// Address of the removed transport.
    pub addr: String,
    /// When it was removed.
    pub timestamp: i64,
}

/// A transport in a synchronization message.
pub struct TransportData {
    /// Normalized address of the transport.
    pub addr: String,
    /// Login parameters as entered, in JSON.
    pub entered_param: String,
    /// Login parameters as configured, in JSON.
    pub configured_param: String,
    /// The folder to watch, out of the configured parameters.
    pub imap_folder: Option<String>,
    /// When the transport was added.
    pub timestamp: i64,
    /// False for a transport that is to be removed.
    pub is_published: bool,
}

/// The transports of an account.
pub struct TransportStore {
    /// The transports, by ascending identifier.
    pub rows: Vec<TransportRow>,
    /// The removals that are remembered.
    pub removed: Vec<RemovedTransportData>,
    /// The address that is used for sending, `None` before the first configuration.
    pub configured_addr: Option<String>,
    /// The identifier that the next new row gets.
    pub next_id: u32,
}

/// What `sync_transports` did.
pub struct SyncOutcome {
    /// Whether a transport or the sending address changed.
    pub modified: bool,
    /// The rows that were deleted, whose caches have to be dropped.
    pub deleted_ids: Vec<u32>,
    /// The new sending address, if another one had to be elected.
    pub reelected: Option<String>,
}

// ---------------------------------------------------------------------------
// The model
// ---------------------------------------------------------------------------

/// What the table holds of one address.
pub struct Entry {
    pub id: u32,
    pub entered: Seq<char>,
    pub configured: Seq<char>,
    pub add_timestamp: i64,
}

/// A transport to be saved.
pub struct Offer {
    pub addr: Seq<char>,
    pub entered: Seq<char>,
    pub configured: Seq<char>,
    pub folder: Option<Seq<char>>,
    pub timestamp: i64,
    pub is_published: bool,
}

/// A transport to be removed.
pub struct Removal {
    pub addr: Seq<char>,
    pub timestamp: i64,
}

/// The state of the two tables and of the sending address.
#[verifier::ext_equal]
pub struct Transports {
    /// The transports by address.
    pub table: Map<Seq<char>, Entry>,
    /// When each removed address was removed last.
    pub removed: Map<Seq<char>, i64>,
    /// The sending address.
    pub primary: Option<Seq<char>>,
    /// The identifier of the next new transport.
    pub next_id: int,
}

/// Whether a transport was added later than another; of two that were added in the same
/// second, the one with the larger identifier.
pub open spec fn newer(a: Entry, b: Entry) -> bool {
    a.add_timestamp > b.add_timestamp || (a.add_timestamp == b.add_timestamp && a.id > b.id)
}

/// Whether `addrs` are the addresses of the table, newest first.
pub open spec fn newest_first(table: Map<Seq<char>, Entry>, addrs: Seq<Seq<char>>) -> bool {
    &&& addrs.to_set() == table.dom()
    &&& forall|i: int, j: int|
        0 <= i < j < addrs.len() ==> newer(table[#[trigger] addrs[i]], table[#[trigger] addrs[j]])
}

/// Whether `addr` is the newest transport of the table.
pub open spec fn is_newest(table: Map<Seq<char>, Entry>, addr: Seq<char>) -> bool {
    &&& table.contains_key(addr)
    &&& forall|b: Seq<char>| #[trigger]
        table.contains_key(b) && b != addr ==> newer(table[addr], table[b])
}

impl Offer {
    /// A folder name, where one is given, is not empty.
    pub open spec fn valid(self) -> bool {
        self.folder matches Some(name) ==> name.len() > 0
    }

    /// The entry that the offer becomes.
    pub open spec fn entry(self, id: u32) -> Entry {
        Entry {
            id,
            entered: self.entered,
            configured: self.configured,
            add_timestamp: self.timestamp,
        }
    }

    /// Whether the offer replaces an entry: its parameters differ, or it is later.
    pub open spec fn replaces(self, e: Entry) -> bool {
        e.entered != self.entered || e.configured != self.configured || e.add_timestamp
            < self.timestamp
    }
}

impl Transports {
    /// Identifiers are below the next one and belong to one address each.
    pub open spec fn wf(self) -> bool {
        &&& self.table.dom().finite()
        &&& forall|a: Seq<char>| #[trigger]
            self.table.contains_key(a) ==> self.table[a].id < self.next_id
        &&& forall|a: Seq<char>, b: Seq<char>| #[trigger]
            self.table.contains_key(a) && #[trigger] self.table.contains_key(b) && a != b
                ==> self.table[a].id != self.table[b].id
    }

    /// Whether saving the offer changes anything.
    pub open spec fn save_modifies(self, o: Offer) -> bool {
        ||| !self.table.contains_key(o.addr)
        ||| o.replaces(self.table[o.addr])
        ||| self.primary is None
    }

    /// The state after the offer was saved: a new address is added, a known one replaced where
    /// the offer differs or is later. The first address becomes the sending address.
    pub open spec fn saved(self, o: Offer) -> Transports {
        Transports {
            table: if !self.table.contains_key(o.addr) {
                self.table.insert(o.addr, o.entry(self.next_id as u32))
            } else if o.replaces(self.table[o.addr]) {
                self.table.insert(o.addr, o.entry(self.table[o.addr].id))
            } else {
                self.table
            },
            next_id: if self.table.contains_key(o.addr) {
                self.next_id
            } else {
                self.next_id + 1
            },
            primary: if self.primary is None {
                Some(o.addr)
            } else {
                self.primary
            },
            ..self
        }
    }

    /// Whether the address was removed at the given time or later.
    pub open spec fn removed_since(self, addr: Seq<char>, timestamp: i64) -> bool {
        self.removed.contains_key(addr) && self.removed[addr] >= timestamp
    }

    /// Whether a synchronized offer is taken up: published, and not removed since.
    pub open spec fn accepts(self, o: Offer) -> bool {
        o.is_published && !self.removed_since(o.addr, o.timestamp)
    }

    /// The state after the deletion of a transport that is not newer than the removal;
    /// the removal is remembered, the latest one for each address.
    pub open spec fn deleted(self, r: Removal) -> Transports {
        Transports {
            table: if self.deletes(r) {
                self.table.remove(r.addr)
            } else {
                self.table
            },
            removed: if self.removed_since(r.addr, r.timestamp) {
                self.removed
            } else {
                self.removed.insert(r.addr, r.timestamp)
            },
            ..self
        }
    }

    /// Whether a removal concerns a present transport.
    pub open spec fn deletes(self, r: Removal) -> bool {
        self.table.contains_key(r.addr) && self.table[r.addr].add_timestamp <= r.timestamp
    }

    /// Whether the sending address has no transport although there are some.
    pub open spec fn needs_election(self) -> bool {
        &&& self.primary matches Some(p) && !self.table.contains_key(p)
        &&& self.table.dom().len() > 0
    }

    /// The state after the election of a sending address.
    pub open spec fn elected(self) -> Transports {
        if self.needs_election() {
            Transports { primary: Some(choose|a: Seq<char>| is_newest(self.table, a)), ..self }
        } else {
            self
        }
    }

    /// The state after the accepted offers were saved one by one, up to the first accepted one
    /// that is not valid.
    pub open spec fn after_offers(self, offers: Seq<Offer>) -> Transports
        decreases offers.len(),
    {
        if offers.len() == 0 {
            self
        } else {
            let before = self.after_offers(offers.drop_last());
            if self.offers_valid(offers) && before.accepts(offers.last()) {
                before.saved(offers.last())
            } else {
                before
            }
        }
    }

    /// Whether every accepted offer is valid.
    pub open spec fn offers_valid(self, offers: Seq<Offer>) -> bool
    {
        forall|i: int|
            0 <= i < offers.len() && self.accepts(#[trigger] offers[i]) ==> offers[i].valid()
    }

    /// Whether saving the offers changed anything.
    pub open spec fn offers_modify(self, offers: Seq<Offer>) -> bool
        decreases offers.len(),
    {
        if offers.len() == 0 {
            false
        } else {
            ||| self.offers_modify(offers.drop_last())
            ||| {
                let before = self.after_offers(offers.drop_last());
                before.accepts(offers.last()) && before.save_modifies(offers.last())
            }
        }
    }

    /// The state after the removals, of which none touches the last transport.
    pub open spec fn after_removals(self, removals: Seq<Removal>) -> Transports
        decreases removals.len(),
    {
        if removals.len() == 0 {
            self
        } else {
            let before = self.after_removals(removals.drop_last());
            if before.table.dom().len() > 1 {
                before.deleted(removals.last())
            } else {
                before
            }
        }
    }

    /// The identifiers of the transports that the removals delete, in order.
    pub open spec fn removal_ids(self, removals: Seq<Removal>) -> Seq<u32>
        decreases removals.len(),
    {
        if removals.len() == 0 {
            Seq::empty()
        } else {
            let before = self.after_removals(removals.drop_last());
            let ids = self.removal_ids(removals.drop_last());
            if before.table.dom().len() > 1 && before.deletes(removals.last()) {
                ids.push(before.table[removals.last().addr].id)
            } else {
                ids
            }
        }
    }
}

// ---------------------------------------------------------------------------
// The tables as maps
// ---------------------------------------------------------------------------

/// The entry that a row holds.
pub open spec fn entry_of(r: TransportRow) -> Entry {
    Entry {
        id: r.id,
        entered: r.entered_param@,
        configured: r.configured_param@,
        add_timestamp: r.add_timestamp,
    }
}

/// The addresses of the rows.
pub open spec fn row_addrs(rows: Seq<TransportRow>) -> Seq<Seq<char>> {
    rows.map_values(|r: TransportRow| r.addr@)
}

/// The rows by address.
pub open spec fn table_of(rows: Seq<TransportRow>) -> Map<Seq<char>, Entry> {
    Map::new(
        |a: Seq<char>| row_addrs(rows).contains(a),
        |a: Seq<char>| entry_of(rows[row_addrs(rows).index_of(a)]),
    )
}

/// The addresses of the removals.
pub open spec fn removed_addrs(removed: Seq<RemovedTransportData>) -> Seq<Seq<char>> {
    removed.map_values(|r: RemovedTransportData| r.addr@)
}

/// The removals by address.
pub open spec fn removed_of(removed: Seq<RemovedTransportData>) -> Map<Seq<char>, i64> {
    Map::new(
        |a: Seq<char>| removed_addrs(removed).contains(a),
        |a: Seq<char>| removed[removed_addrs(removed).index_of(a)].timestamp,
    )
}

/// An optional text.
pub open spec fn opt_text(s: Option<String>) -> Option<Seq<char>> {
    match s {
        Some(t) => Some(t@),
        None => None,
    }
}

impl View for TransportStore {
    type V = Transports;

    open spec fn view(&self) -> Transports {
        Transports {
            table: table_of(self.rows@),
            removed: removed_of(self.removed@),
            primary: opt_text(self.configured_addr),
            next_id: self.next_id as int,
        }
    }
}

impl TransportData {
    /// The offer that a synchronized transport makes.
    pub open spec fn offer(self) -> Offer {
        Offer {
            addr: self.addr@,
            entered: self.entered_param@,
            configured: self.configured_param@,
            folder: opt_text(self.imap_folder),
            timestamp: self.timestamp,
            is_published: self.is_published,
        }
    }
}

impl RemovedTransportData {
    /// The removal that is synchronized.
    pub open spec fn removal(self) -> Removal {
        Removal { addr: self.addr@, timestamp: self.timestamp }
    }
}

/// The offers of a synchronization message.
pub open spec fn offers_of(data: Seq<TransportData>) -> Seq<Offer> {
    data.map_values(|d: TransportData| d.offer())
}

/// The removals of a list of removed transports.
pub open spec fn listed_removals(removed: Seq<RemovedTransportData>) -> Seq<Removal> {
    removed.map_values(|r: RemovedTransportData| r.removal())
}

/// The removals that unpublished offers stand for.
pub open spec fn unpublished_removals(offers: Seq<Offer>) -> Seq<Removal> {
    offers.filter(|o: Offer| !o.is_published).map_values(
        |o: Offer| Removal { addr: o.addr, timestamp: o.timestamp },
    )
}

impl TransportStore {
    /// Each address occurs once in each table; identifiers ascend and stay below `next_id`.
    pub open spec fn wf(&self) -> bool {
        &&& row_addrs(self.rows@).no_duplicates()
        &&& removed_addrs(self.removed@).no_duplicates()
        &&& forall|i: int, j: int|
            0 <= i < j < self.rows@.len() ==> (#[trigger] self.rows@[i]).id < (
            #[trigger] self.rows@[j]).id
        &&& forall|i: int|
            0 <= i < self.rows@.len() ==> (#[trigger] self.rows@[i]).id < self.next_id
    }
}

pub(crate) proof fn lemma_table_row(rows: Seq<TransportRow>, i: int)
    requires
        row_addrs(rows).no_duplicates(),
        0 <= i < rows.len(),
    ensures
        table_of(rows).contains_key(rows[i].addr@),
        table_of(rows)[rows[i].addr@] == entry_of(rows[i]),
{
    let addrs = row_addrs(rows);
    assert(addrs[i] == rows[i].addr@);
    let k = addrs.index_of(rows[i].addr@);
    assert(addrs[k] == addrs[i]);
}

pub(crate) proof fn lemma_table_row_of(rows: Seq<TransportRow>, a: Seq<char>) -> (i: int)
    requires
        row_addrs(rows).no_duplicates(),
        table_of(rows).contains_key(a),
    ensures
        0 <= i < rows.len(),
        rows[i].addr@ == a,
        table_of(rows)[a] == entry_of(rows[i]),
{
    let i = row_addrs(rows).index_of(a);
    assert(row_addrs(rows)[i] == a);
    i
}

pub(crate) proof fn lemma_table_len(rows: Seq<TransportRow>)
    requires
        row_addrs(rows).no_duplicates(),
    ensures
        table_of(rows).dom().finite(),
        table_of(rows).dom().len() == rows.len(),
{
    row_addrs(rows).unique_seq_to_set();
    assert(table_of(rows).dom() =~= row_addrs(rows).to_set());
}

pub(crate) proof fn lemma_table_push(rows: Seq<TransportRow>, r: TransportRow)
    requires
        row_addrs(rows).no_duplicates(),
        !table_of(rows).contains_key(r.addr@),
    ensures
        row_addrs(rows.push(r)).no_duplicates(),
        table_of(rows.push(r)) == table_of(rows).insert(r.addr@, entry_of(r)),
{
    let after = rows.push(r);
    assert(row_addrs(after) =~= row_addrs(rows).push(r.addr@));
    assert forall|i: int, j: int|
        0 <= i < after.len() && 0 <= j < after.len() && i != j implies row_addrs(after)[i]
        != row_addrs(after)[j] by {
        assert(i < rows.len() ==> row_addrs(rows).contains(row_addrs(rows)[i]));
        assert(j < rows.len() ==> row_addrs(rows).contains(row_addrs(rows)[j]));
    }
    assert forall|a: Seq<char>|
        table_of(after).contains_key(a) == table_of(rows).insert(
            r.addr@,
            entry_of(r),
        ).contains_key(a) by {
        if row_addrs(rows).contains(a) {
            let i = row_addrs(rows).index_of(a);
            assert(row_addrs(after)[i] == a);
        }
        if row_addrs(after).contains(a) {
            let i = row_addrs(after).index_of(a);
            assert(i < rows.len() ==> row_addrs(rows)[i] == a);
        }
        assert(row_addrs(after)[rows.len() as int] == r.addr@);
    }
    assert forall|a: Seq<char>| #[trigger] table_of(after).contains_key(a) implies table_of(after)[a]
        == table_of(rows).insert(r.addr@, entry_of(r))[a] by {
        let i = lemma_table_row_of(after, a);
        if i < rows.len() {
            lemma_table_row(rows, i);
        }
    }
    assert(table_of(after) =~= table_of(rows).insert(r.addr@, entry_of(r)));
}

proof fn lemma_table_update(rows: Seq<TransportRow>, k: int, r: TransportRow)
    requires
        row_addrs(rows).no_duplicates(),
        0 <= k < rows.len(),
        r.addr@ == rows[k].addr@,
    ensures
        row_addrs(rows.update(k, r)).no_duplicates(),
        table_of(rows.update(k, r)) == table_of(rows).insert(r.addr@, entry_of(r)),
{
    let after = rows.update(k, r);
    assert(row_addrs(after) =~= row_addrs(rows));
    lemma_table_row(rows, k);
    assert forall|a: Seq<char>| #[trigger] table_of(after).contains_key(a) implies table_of(after)[a]
        == table_of(rows).insert(r.addr@, entry_of(r))[a] by {
        let i = lemma_table_row_of(after, a);
        lemma_table_row(rows, i);
        if i != k {
            assert(row_addrs(rows)[i] != row_addrs(rows)[k]);
        }
    }
    assert(table_of(after) =~= table_of(rows).insert(r.addr@, entry_of(r)));
}

proof fn lemma_table_remove(rows: Seq<TransportRow>, k: int)
    requires
        row_addrs(rows).no_duplicates(),
        0 <= k < rows.len(),
    ensures
        row_addrs(rows.remove(k)).no_duplicates(),
        table_of(rows.remove(k)) == table_of(rows).remove(rows[k].addr@),
{
    let after = rows.remove(k);
    let gone = rows[k].addr@;
    assert(row_addrs(after) =~= row_addrs(rows).remove(k));
    assert forall|i: int, j: int|
        0 <= i < after.len() && 0 <= j < after.len() && i != j implies row_addrs(after)[i]
        != row_addrs(after)[j] by {
        let p = if i < k { i } else { i + 1 };
        let q = if j < k { j } else { j + 1 };
        assert(row_addrs(after)[i] == row_addrs(rows)[p]);
        assert(row_addrs(after)[j] == row_addrs(rows)[q]);
    }
    assert(row_addrs(rows)[k] == gone);
    assert forall|a: Seq<char>|
        table_of(after).contains_key(a) == table_of(rows).remove(gone).contains_key(a) by {
        if row_addrs(rows).contains(a) && a != gone {
            let i = row_addrs(rows).index_of(a);
            let p = if i < k { i } else { i - 1 };
            assert(row_addrs(after)[p] == a);
        }
        if row_addrs(after).contains(a) {
            let i = row_addrs(after).index_of(a);
            let p = if i < k { i } else { i + 1 };
            assert(row_addrs(rows)[p] == a);
            assert(p != k);
        }
    }
    assert forall|a: Seq<char>| #[trigger] table_of(after).contains_key(a) implies table_of(after)[a]
        == table_of(rows).remove(gone)[a] by {
        let i = lemma_table_row_of(after, a);
        let p = if i < k { i } else { i + 1 };
        lemma_table_row(rows, p);
    }
    assert(table_of(after) =~= table_of(rows).remove(gone));
}

pub(crate) proof fn lemma_removed_row(removed: Seq<RemovedTransportData>, i: int)
    requires
        removed_addrs(removed).no_duplicates(),
        0 <= i < removed.len(),
    ensures
        removed_of(removed).contains_key(removed[i].addr@),
        removed_of(removed)[removed[i].addr@] == removed[i].timestamp,
{
    let addrs = removed_addrs(removed);
    assert(addrs[i] == removed[i].addr@);
    let k = addrs.index_of(removed[i].addr@);
    assert(addrs[k] == addrs[i]);
}

proof fn lemma_removed_push(removed: Seq<RemovedTransportData>, r: RemovedTransportData)
    requires
        removed_addrs(removed).no_duplicates(),
        !removed_of(removed).contains_key(r.addr@),
    ensures
        removed_addrs(removed.push(r)).no_duplicates(),
        removed_of(removed.push(r)) == removed_of(removed).insert(r.addr@, r.timestamp),
{
    let after = removed.push(r);
    assert(removed_addrs(after) =~= removed_addrs(removed).push(r.addr@));
    assert forall|i: int, j: int|
        0 <= i < after.len() && 0 <= j < after.len() && i != j implies removed_addrs(after)[i]
        != removed_addrs(after)[j] by {
        assert(i < removed.len() ==> removed_addrs(removed).contains(removed_addrs(removed)[i]));
        assert(j < removed.len() ==> removed_addrs(removed).contains(removed_addrs(removed)[j]));
    }
    assert forall|a: Seq<char>|
        removed_of(after).contains_key(a) == removed_of(removed).insert(
            r.addr@,
            r.timestamp,
        ).contains_key(a) by {
        if removed_addrs(removed).contains(a) {
            let i = removed_addrs(removed).index_of(a);
            assert(removed_addrs(after)[i] == a);
        }
        if removed_addrs(after).contains(a) {
            let i = removed_addrs(after).index_of(a);
            assert(i < removed.len() ==> removed_addrs(removed)[i] == a);
        }
        assert(removed_addrs(after)[removed.len() as int] == r.addr@);
    }
    assert forall|a: Seq<char>| #[trigger] removed_of(after).contains_key(a) implies removed_of(
        after,
    )[a] == removed_of(removed).insert(r.addr@, r.timestamp)[a] by {
        let i = removed_addrs(after).index_of(a);
        assert(removed_addrs(after)[i] == a);
        lemma_removed_row(after, i);
        if i < removed.len() {
            lemma_removed_row(removed, i);
        }
    }
    assert(removed_of(after) =~= removed_of(removed).insert(r.addr@, r.timestamp));
}

proof fn lemma_removed_update(
    removed: Seq<RemovedTransportData>,
    k: int,
    r: RemovedTransportData,
)
    requires
        removed_addrs(removed).no_duplicates(),
        0 <= k < removed.len(),
        r.addr@ == removed[k].addr@,
    ensures
        removed_addrs(removed.update(k, r)).no_duplicates(),
        removed_of(removed.update(k, r)) == removed_of(removed).insert(r.addr@, r.timestamp),
{
    let after = removed.update(k, r);
    assert(removed_addrs(after) =~= removed_addrs(removed));
    lemma_removed_row(removed, k);
    assert forall|a: Seq<char>| #[trigger] removed_of(after).contains_key(a) implies removed_of(
        after,
    )[a] == removed_of(removed).insert(r.addr@, r.timestamp)[a] by {
        let i = removed_addrs(after).index_of(a);
        assert(removed_addrs(after)[i] == a);
        lemma_removed_row(after, i);
        lemma_removed_row(removed, i);
        if i != k {
            assert(removed_addrs(removed)[i] != removed_addrs(removed)[k]);
        }
    }
    assert(removed_of(after) =~= removed_of(removed).insert(r.addr@, r.timestamp));
}

// ---------------------------------------------------------------------------
// Operations
// ---------------------------------------------------------------------------

fn is_newer(a: &TransportRow, b: &TransportRow) -> (r: bool)
    ensures
        r == newer(entry_of(*a), entry_of(*b)),
{
    a.add_timestamp > b.add_timestamp || (a.add_timestamp == b.add_timestamp && a.id > b.id)
}

impl TransportStore {
    /// The position of the row of `addr`.
    pub(crate) fn find_row(&self, addr: &str) -> (r: Option<usize>)
        requires
            self.wf(),
        ensures
            match r {
                Some(i) => i < self.rows@.len() && self.rows@[i as int].addr@ == addr@
                    && self@.table.contains_key(addr@) && self@.table[addr@] == entry_of(
                    self.rows@[i as int],
                ),
                None => !self@.table.contains_key(addr@),
            },
    {
        for i in 0..self.rows.len()
            invariant
                self.wf(),
                forall|j: int| 0 <= j < i ==> row_addrs(self.rows@)[j] != addr@,
        {
            if same_text(self.rows[i].addr.as_str(), addr) {
                proof {
                    lemma_table_row(self.rows@, i as int);
                }
                return Some(i);
            }
        }
        None
    }

    /// The position of the removal of `addr`.
    fn find_removed(&self, addr: &str) -> (r: Option<usize>)
        requires
            self.wf(),
        ensures
            match r {
                Some(i) => i < self.removed@.len() && self.removed@[i as int].addr@ == addr@
                    && self@.removed.contains_key(addr@) && self@.removed[addr@]
                    == self.removed@[i as int].timestamp,
                None => !self@.removed.contains_key(addr@),
            },
    {
        for i in 0..self.removed.len()
            invariant
                self.wf(),
                forall|j: int| 0 <= j < i ==> removed_addrs(self.removed@)[j] != addr@,
        {
            if same_text(self.removed[i].addr.as_str(), addr) {
                proof {
                    lemma_removed_row(self.removed@, i as int);
                }
                return Some(i);
            }
        }
        None
    }

    /// Saves a transport. Returns whether anything changed.
    pub fn save_transport(&mut self, data: &TransportData) -> (r: Result<bool, TransportError>)
        requires
            old(self).wf(),
            old(self).next_id < u32::MAX,
        ensures
            final(self).wf(),
            match r {
                Ok(modified) => {
                    &&& data.offer().valid()
                    &&& modified == old(self)@.save_modifies(data.offer())
                    &&& final(self)@ == old(self)@.saved(data.offer())
                },
                Err(e) => {
                    &&& !data.offer().valid()
                    &&& e is EmptyFolder
                    &&& *final(self) == *old(self)
                },
            },
    {
        if let Some(folder) = &data.imap_folder {
            if folder.as_str().is_empty() {
                return Err(TransportError::EmptyFolder);
            }
        }
        let found = self.find_row(data.addr.as_str());
        let mut modified = false;
        let ghost before = self.rows@;
        if let Some(i) = found {
            let row = &self.rows[i];
            let outdated = row.entered_param != data.entered_param || row.configured_param
                != data.configured_param || row.add_timestamp < data.timestamp;
            if outdated {
                let updated = TransportRow {
                    id: row.id,
                    addr: row.addr.clone(),
                    entered_param: data.entered_param.clone(),
                    configured_param: data.configured_param.clone(),
                    add_timestamp: data.timestamp,
                };
                proof {
                    lemma_table_update(before, i as int, updated);
                }
                self.rows[i] = updated;
                assert(self.rows@ =~= before.update(i as int, updated));
                modified = true;
            }
        } else {
            let added = TransportRow {
                id: self.next_id,
                addr: data.addr.clone(),
                entered_param: data.entered_param.clone(),
                configured_param: data.configured_param.clone(),
                add_timestamp: data.timestamp,
            };
            proof {
                lemma_table_push(before, added);
            }
            self.rows.push(added);
            self.next_id = self.next_id + 1;
            modified = true;
        }
        if self.configured_addr.is_none() {
            self.configured_addr = Some(data.addr.clone());
            modified = true;
        }
        assert(self@ =~= old(self)@.saved(data.offer()));
        Ok(modified)
    }

    /// The addresses of all transports, newest first.
    pub fn transport_addrs(&self) -> (r: Vec<String>)
        requires
            self.wf(),
        ensures
            newest_first(self@.table, texts(r@)),
    {
        let mut order: Vec<usize> = Vec::new();
        for i in 0..self.rows.len()
            invariant
                self.wf(),
                order@.len() == i,
                forall|k: int| 0 <= k < order@.len() ==> #[trigger] order@[k] < i,
                forall|x: usize| x < i ==> order@.contains(x),
                forall|j: int, k: int|
                    0 <= j < k < order@.len() ==> newer(
                        entry_of(self.rows@[#[trigger] order@[j] as int]),
                        entry_of(self.rows@[#[trigger] order@[k] as int]),
                    ),
        {
            let mut at: usize = order.len();
            while at > 0 && !is_newer(&self.rows[order[at - 1]], &self.rows[i])
                invariant
                    i < self.rows@.len(),
                    at <= order@.len(),
                    forall|k: int| 0 <= k < order@.len() ==> #[trigger] order@[k] < i,
                    forall|k: int|
                        at <= k < order@.len() ==> !newer(
                            entry_of(self.rows@[#[trigger] order@[k] as int]),
                            entry_of(self.rows@[i as int]),
                        ),
                decreases at,
            {
                at = at - 1;
            }
            let ghost before = order@;
            order.insert(at, i);
            proof {
                let rows = self.rows@;
                assert forall|x: usize| x < i + 1 implies order@.contains(x) by {
                    if x == i {
                        assert(order@[at as int] == x);
                    } else {
                        assert(before.contains(x));
                        let k = choose|k: int| 0 <= k < before.len() && before[k] == x;
                        if k < at {
                            assert(order@[k] == x);
                        } else {
                            assert(order@[k + 1] == x);
                        }
                    }
                }
                assert forall|k: int| 0 <= k < order@.len() implies #[trigger] order@[k] < i + 1 by {
                    if k < at {
                        assert(order@[k] == before[k]);
                    } else if k > at {
                        assert(order@[k] == before[k - 1]);
                    }
                }
                assert forall|j: int, k: int| 0 <= j < k < order@.len() implies newer(
                    entry_of(rows[#[trigger] order@[j] as int]),
                    entry_of(rows[#[trigger] order@[k] as int]),
                ) by {
                    if k < at {
                        assert(order@[j] == before[j] && order@[k] == before[k]);
                    } else if k == at {
                        assert(order@[j] == before[j]);
                        assert(newer(
                            entry_of(rows[before[at - 1] as int]),
                            entry_of(rows[i as int]),
                        ));
                        if j < at - 1 {
                            assert(newer(
                                entry_of(rows[before[j] as int]),
                                entry_of(rows[before[at - 1] as int]),
                            ));
                        }
                    } else if j == at {
                        assert(order@[k] == before[k - 1]);
                        assert(!newer(
                            entry_of(rows[before[k - 1] as int]),
                            entry_of(rows[i as int]),
                        ));
                        assert(rows[before[k - 1] as int].id < rows[i as int].id);
                    } else if j < at {
                        assert(order@[j] == before[j] && order@[k] == before[k - 1]);
                    } else {
                        assert(order@[j] == before[j - 1] && order@[k] == before[k - 1]);
                    }
                }
            }
        }
        let mut addrs: Vec<String> = Vec::new();
        for k in 0..order.len()
            invariant
                self.wf(),
                addrs@.len() == k,
                forall|j: int| 0 <= j < order@.len() ==> #[trigger] order@[j] < self.rows@.len(),
                forall|j: int|
                    0 <= j < k ==> (#[trigger] addrs@[j])@ == self.rows@[order@[j] as int].addr@,
        {
            addrs.push(self.rows[order[k]].addr.clone());
        }
        proof {
            let rows = self.rows@;
            let list = texts(addrs@);
            let table = self@.table;
            assert forall|a: Seq<char>| list.to_set().contains(a) == table.dom().contains(a) by {
                if list.contains(a) {
                    let k = choose|k: int| 0 <= k < list.len() && list[k] == a;
                    assert(addrs@[k]@ == a);
                    lemma_table_row(rows, order@[k] as int);
                }
                if table.contains_key(a) {
                    let i = lemma_table_row_of(rows, a);
                    assert(order@.contains(i as usize));
                    let k = choose|k: int| 0 <= k < order@.len() && order@[k] == i as usize;
                    assert(addrs@[k]@ == a);
                    assert(list[k] == a);
                }
            }
            assert(list.to_set() =~= table.dom());
            assert forall|j: int, k: int| 0 <= j < k < list.len() implies newer(
                table[#[trigger] list[j]],
                table[#[trigger] list[k]],
            ) by {
                assert(addrs@[j]@ == list[j] && addrs@[k]@ == list[k]);
                lemma_table_row(rows, order@[j] as int);
                lemma_table_row(rows, order@[k] as int);
                assert(order@[j] < rows.len() && order@[k] < rows.len());
            }
        }
        addrs
    }

    /// Deletes the transport of `addr` unless it is newer than `remove_timestamp`, and remembers
    /// the removal. Returns the identifier of the deleted row.
    pub fn delete_transport_row(&mut self, addr: &str, remove_timestamp: i64) -> (r: Option<u32>)
        requires
            old(self).wf(),
        ensures
            final(self).wf(),
            ({
                let removal = Removal { addr: addr@, timestamp: remove_timestamp };
                &&& final(self)@ == old(self)@.deleted(removal)
                &&& r == if old(self)@.deletes(removal) {
                    Some(old(self)@.table[addr@].id)
                } else {
                    None
                }
            }),
            final(self).configured_addr == old(self).configured_addr,
    {
        let ghost removal = Removal { addr: addr@, timestamp: remove_timestamp };
        let mut deleted: Option<u32> = None;
        let found = self.find_row(addr);
        if let Some(i) = found {
            if self.rows[i].add_timestamp <= remove_timestamp {
                deleted = Some(self.rows[i].id);
                proof {
                    lemma_table_remove(self.rows@, i as int);
                }
                let ghost before = self.rows@;
                self.rows.remove(i);
                assert(self.rows@ =~= before.remove(i as int));
            }
        }
        let known = self.find_removed(addr);
        let ghost before = self.removed@;
        if let Some(i) = known {
            if remove_timestamp > self.removed[i].timestamp {
                let updated = RemovedTransportData {
                    addr: self.removed[i].addr.clone(),
                    timestamp: remove_timestamp,
                };
                proof {
                    lemma_removed_update(before, i as int, updated);
                }
                self.removed[i] = updated;
                assert(self.removed@ =~= before.update(i as int, updated));
            }
        } else {
            let added = RemovedTransportData {
                addr: addr.to_owned(),
                timestamp: remove_timestamp,
            };
            proof {
                lemma_removed_push(before, added);
            }
            self.removed.push(added);
        }
        assert(self@ =~= old(self)@.deleted(removal));
        deleted
    }

    /// Elects the newest transport for sending if the current sending address has none.
    /// Returns the newly elected address.
    pub fn maybe_update_sending_transport(&mut self) -> (r: Result<Option<String>, TransportError>)
        requires
            old(self).wf(),
        ensures
            final(self).wf(),
            match r {
                Ok(reelected) => {
                    &&& old(self)@.primary is Some
                    &&& final(self)@ == old(self)@.elected()
                    &&& opt_text(reelected) == if old(self)@.needs_election() {
                        final(self)@.primary
                    } else {
                        None
                    }
                    &&& old(self)@.needs_election() ==> is_newest(
                        old(self)@.table,
                        final(self)@.primary->0,
                    )
                },
                Err(e) => {
                    &&& old(self)@.primary is None
                    &&& e is NotConfigured
                    &&& *final(self) == *old(self)
                },
            },
            final(self).rows == old(self).rows,
            final(self).removed == old(self).removed,
    {
        let configured = match &self.configured_addr {
            Some(addr) => addr.clone(),
            None => {
                return Err(TransportError::NotConfigured);
            },
        };
        let addrs = self.transport_addrs();
        let ghost list = texts(addrs@);
        let ghost table = self@.table;
        proof {
            lemma_table_len(self.rows@);
            assert(list.to_set().contains(configured@) == table.contains_key(configured@));
        }
        if contains_text(&addrs, configured.as_str()) {
            assert(list.to_set().contains(configured@));
            return Ok(None);
        }
        if addrs.len() == 0 {
            assert(list.to_set() =~= Set::empty());
            return Ok(None);
        }
        let elected = addrs[0].clone();
        proof {
            assert(list[0] == elected@);
            assert(list.to_set().contains(elected@));
            if table.dom().len() == 0 {
                table.dom().lemma_len0_is_empty();
            }
            assert(is_newest(table, elected@)) by {
                assert forall|b: Seq<char>| #[trigger]
                    table.contains_key(b) && b != elected@ implies newer(
                    table[elected@],
                    table[b],
                ) by {
                    assert(list.to_set().contains(b));
                    let k = choose|k: int| 0 <= k < list.len() && list[k] == b;
                    assert(newer(table[list[0]], table[list[k]]));
                }
            }
            lemma_newest_unique(table, elected@, choose|a: Seq<char>| is_newest(table, a));
        }
        self.configured_addr = Some(elected.clone());
        assert(self@ =~= old(self)@.elected());
        Ok(Some(elected))
    }
}

// ---------------------------------------------------------------------------
// Synchronization
// ---------------------------------------------------------------------------

/// The removals that a synchronization message asks for: first those that are listed,
/// then the unpublished transports.
pub open spec fn sync_removals(offers: Seq<Offer>, removed: Seq<Removal>) -> Seq<Removal> {
    removed + unpublished_removals(offers)
}

impl Transports {
    /// The state after a synchronization message was processed.
    pub open spec fn synced(self, offers: Seq<Offer>, removed: Seq<Removal>) -> Transports {
        self.after_offers(offers).after_removals(sync_removals(offers, removed)).elected()
    }

    /// Whether a synchronization message can be processed to its end: every accepted offer is
    /// valid, and there is a sending address.
    pub open spec fn sync_succeeds(self, offers: Seq<Offer>) -> bool {
        self.offers_valid(offers) && self.after_offers(offers).primary is Some
    }

    /// Whether processing a synchronization message changes a transport or the sending address.
    pub open spec fn sync_modifies(self, offers: Seq<Offer>, removed: Seq<Removal>) -> bool {
        let saved = self.after_offers(offers);
        let removals = sync_removals(offers, removed);
        ||| self.offers_modify(offers)
        ||| saved.removal_ids(removals).len() > 0
        ||| saved.after_removals(removals).needs_election()
    }
}

proof fn lemma_offers_keep_removed(s: Transports, offers: Seq<Offer>)
    ensures
        s.after_offers(offers).removed == s.removed,
    decreases offers.len(),
{
    if offers.len() > 0 {
        lemma_offers_keep_removed(s, offers.drop_last());
    }
}

/// Nothing is saved after an accepted offer that is not valid.
proof fn lemma_offers_stop(s: Transports, offers: Seq<Offer>, bad: int)
    requires
        0 <= bad < offers.len(),
        s.accepts(offers[bad]),
        !offers[bad].valid(),
    ensures
        s.after_offers(offers) == s.after_offers(offers.take(bad)),
    decreases offers.len(),
{
    assert(!s.offers_valid(offers));
    if bad == offers.len() - 1 {
        assert(offers.take(bad) =~= offers.drop_last());
    } else {
        assert(offers.drop_last()[bad] == offers[bad]);
        lemma_offers_stop(s, offers.drop_last(), bad);
        assert(offers.drop_last().take(bad) =~= offers.take(bad));
    }
}

impl TransportStore {
    /// Processes a synchronization message.
    ///
    /// Published transports are saved, except for those that were removed since. Then the listed
    /// removals and the unpublished transports are removed, but never the last transport.
    /// In the end a sending address is elected if the current one is gone.
    pub fn sync_transports(
        &mut self,
        transports: &Vec<TransportData>,
        removed_transports: &Vec<RemovedTransportData>,
    ) -> (r: Result<SyncOutcome, TransportError>)
        requires
            old(self).wf(),
            old(self).next_id + transports@.len() <= u32::MAX,
        ensures
            final(self).wf(),
            ({
                let s = old(self)@;
                let offers = offers_of(transports@);
                let removed = listed_removals(removed_transports@);
                match r {
                    Ok(outcome) => {
                        &&& s.sync_succeeds(offers)
                        &&& final(self)@ == s.synced(offers, removed)
                        &&& outcome.modified == s.sync_modifies(offers, removed)
                        &&& outcome.deleted_ids@ == s.after_offers(offers).removal_ids(
                            sync_removals(offers, removed),
                        )
                        &&& opt_text(outcome.reelected) == if s.after_offers(offers).after_removals(
                            sync_removals(offers, removed),
                        ).needs_election() {
                            final(self)@.primary
                        } else {
                            None
                        }
                    },
                    Err(e) => {
                        &&& !s.sync_succeeds(offers)
                        &&& final(self)@ == s.after_offers(offers)
                        &&& e is EmptyFolder == !s.offers_valid(offers)
                        &&& e is NotConfigured == s.offers_valid(offers)
                    },
                }
            }),
    {
        let ghost s = self@;
        let ghost offers = offers_of(transports@);
        let ghost removed = listed_removals(removed_transports@);
        let mut modified = false;
        for i in 0..transports.len()
            invariant
                self.wf(),
                offers == offers_of(transports@),
                s == old(self)@,
                self.next_id + (transports@.len() - i) <= u32::MAX,
                self@ == s.after_offers(offers.take(i as int)),
                s.offers_valid(offers.take(i as int)),
                modified == s.offers_modify(offers.take(i as int)),
        {
            let data = &transports[i];
            proof {
                assert(offers[i as int] == data.offer());
                assert(offers.take(i + 1).drop_last() =~= offers.take(i as int));
                assert(offers.take(i + 1).last() == data.offer());
                lemma_offers_keep_removed(s, offers.take(i as int));
                assert forall|j: int|
                    0 <= j < i + 1 && s.accepts(#[trigger] offers.take(i + 1)[j]) && (j == i
                        ==> data.offer().valid()) implies offers.take(i + 1)[j].valid() by {
                    if j < i {
                        assert(offers.take(i + 1)[j] == offers.take(i as int)[j]);
                    }
                }
            }
            let removed_later = match self.find_removed(data.addr.as_str()) {
                Some(k) => self.removed[k].timestamp >= data.timestamp,
                None => false,
            };
            if data.is_published && !removed_later {
                assert(s.accepts(offers[i as int]));
                match self.save_transport(data) {
                    Ok(changed) => {
                        modified = modified || changed;
                    },
                    Err(e) => {
                        proof {
                            lemma_offers_stop(s, offers, i as int);
                        }
                        return Err(e);
                    },
                }
            }
        }
        assert(offers.take(offers.len() as int) =~= offers);
        if self.configured_addr.is_none() {
            return Err(TransportError::NotConfigured);
        }
        let removals = collect_removals(transports, removed_transports);
        let ghost wanted = sync_removals(offers, removed);
        let ghost saved = self@;
        let mut deleted_ids: Vec<u32> = Vec::new();
        assert(wanted.take(0) =~= Seq::<Removal>::empty());
        for i in 0..removals.len()
            invariant
                self.wf(),
                saved.primary is Some,
                self@.primary == saved.primary,
                listed_removals(removals@) == wanted,
                self@ == saved.after_removals(wanted.take(i as int)),
                deleted_ids@ == saved.removal_ids(wanted.take(i as int)),
        {
            let removal = &removals[i];
            proof {
                assert(wanted[i as int] == removal.removal());
                assert(wanted.take(i + 1).drop_last() =~= wanted.take(i as int));
                assert(wanted.take(i + 1).last() == removal.removal());
                lemma_table_len(self.rows@);
            }
            if self.rows.len() > 1 {
                let deleted = self.delete_transport_row(removal.addr.as_str(), removal.timestamp);
                if let Some(id) = deleted {
                    deleted_ids.push(id);
                }
            }
        }
        assert(wanted.take(wanted.len() as int) =~= wanted);
        if deleted_ids.len() > 0 {
            modified = true;
        }
        let reelected = self.maybe_update_sending_transport()?;
        if reelected.is_some() {
            modified = true;
        }
        Ok(SyncOutcome { modified, deleted_ids, reelected })
    }
}

/// The removals that a synchronization message asks for.
fn collect_removals(
    transports: &Vec<TransportData>,
    removed_transports: &Vec<RemovedTransportData>,
) -> (r: Vec<RemovedTransportData>)
    ensures
        listed_removals(r@) == sync_removals(
            offers_of(transports@),
            listed_removals(removed_transports@),
        ),
{
    let mut removals: Vec<RemovedTransportData> = Vec::new();
    let ghost removed = listed_removals(removed_transports@);
    let ghost offers = offers_of(transports@);
    let ghost unpublished = |o: Offer| !o.is_published;
    let ghost to_removal = |o: Offer| Removal { addr: o.addr, timestamp: o.timestamp };
    for i in 0..removed_transports.len()
        invariant
            removed == listed_removals(removed_transports@),
            listed_removals(removals@) == removed.take(i as int),
    {
        let ghost before = removals@;
        removals.push(
            RemovedTransportData {
                addr: removed_transports[i].addr.clone(),
                timestamp: removed_transports[i].timestamp,
            },
        );
        assert(removed[i as int] == removed_transports@[i as int].removal());
        assert(listed_removals(removals@) =~= listed_removals(before).push(removed[i as int]));
        assert(removed.take(i + 1) =~= removed.take(i as int).push(removed[i as int]));
    }
    assert(removed.take(removed.len() as int) =~= removed);
    assert(offers.take(0).filter(unpublished) =~= Seq::<Offer>::empty());
    assert(listed_removals(removals@) =~= removed + unpublished_removals(offers.take(0)));
    for i in 0..transports.len()
        invariant
            offers == offers_of(transports@),
            unpublished == (|o: Offer| !o.is_published),
            to_removal == (|o: Offer| Removal { addr: o.addr, timestamp: o.timestamp }),
            listed_removals(removals@) == removed + unpublished_removals(offers.take(i as int)),
    {
        let data = &transports[i];
        proof {
            assert(offers[i as int] == data.offer());
            assert(offers.take(i + 1) =~= offers.take(i as int).push(offers[i as int]));
            offers.take(i as int).lemma_filter_push(offers[i as int], unpublished);
        }
        if !data.is_published {
            let ghost before = removals@;
            removals.push(
                RemovedTransportData { addr: data.addr.clone(), timestamp: data.timestamp },
            );
            proof {
                let kept = offers.take(i as int).filter(unpublished);
                assert(kept.push(offers[i as int]).map_values(to_removal) =~= kept.map_values(
                    to_removal,
                ).push(to_removal(offers[i as int])));
                assert(listed_removals(removals@) =~= listed_removals(before).push(
                    to_removal(offers[i as int]),
                ));
                assert(removed + unpublished_removals(offers.take(i + 1)) =~= (removed
                    + unpublished_removals(offers.take(i as int))).push(
                    to_removal(offers[i as int]),
                ));
            }
        }
    }
    assert(offers.take(offers.len() as int) =~= offers);
    removals
}

/// There is at most one newest transport.
pub proof fn lemma_newest_unique(table: Map<Seq<char>, Entry>, a: Seq<char>, b: Seq<char>)
    requires
        is_newest(table, a),
        is_newest(table, b),
    ensures
        a == b,
{
    if a != b {
        assert(newer(table[a], table[b]));
        assert(newer(table[b], table[a]));
    }
}

} // verus!
