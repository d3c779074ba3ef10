//! What comes of a call, whatever it is called with: each law holds of everything that the
//! contract of the function allows.

use vstd::prelude::*;

use crate::address;
use crate::connect_job;
use crate::connect_job::{ConnectAction, ConnectEvent, ConnectJob, ConnectStart};
use crate::connect_job::{ServerAction, ServerEvent, ServerJob};
use crate::delivery::Delivery;
use crate::error::TransportError;
use crate::keyupdate;
use crate::keyupdate::{KeyupdateRecipient, Membership, SpecialIds, StoredContactKey};
use crate::keyupdate_job;
use crate::keyupdate_job::{KeyupdateAction, KeyupdateEvent, KeyupdateJob};
use crate::keyupdate_laws;
use crate::mdn_job;
use crate::mdn_job::{MdnAction, MdnEvent, MdnJob};
use crate::mdn_queue;
use crate::mdn_queue::MdnQueue;
use crate::queue;
use crate::queue::{Encryption, Enqueue, MsgId, QueueError, QueueRow, QueuedMail, SideEffects};
use crate::queue::StoredKey;
use crate::reply;
use crate::reply::{SendFailure, SendResult};
use crate::send_job;
use crate::send_job::{SendAction, SendEvent, SendJob};
use crate::send_round;
use crate::send_round::{RoundAction, RoundEvent, SendRound};
use crate::smtp::{SendDecision, SendPlan, Smtp, SmtpError};
use crate::text;
use crate::transport;
use crate::transport::{
    ConfiguredLoginParam, ConfiguredLoginParamJson, ConfiguredServerLoginParam, LegacyConfig,
};
use crate::transport_laws;
use crate::transport_load;
use crate::transport_load::SyncData;
use crate::transport_store;
use crate::transport_store::{
    RemovedTransportData, SyncOutcome, TransportData, TransportStore,
};

verus! {

// ---------------------------------------------------------------------------
// Sending
// ---------------------------------------------------------------------------

/// Whether a failure is final: the server refused the message for good, not with `550 5.5.0`, or
/// it could not be handed over at all.
pub open spec fn is_final(failure: SendFailure) -> bool {
    match failure {
        SendFailure::Permanent(r) => !(r.category is MailSystem && r.detail is Zero
            && reply::reply_word(text::texts(r.message@)) == Some("5.5.0"@)),
        SendFailure::Transient(_) => false,
        SendFailure::NoReply => false,
        SendFailure::Envelope(_) => true,
        SendFailure::NoTransport => true,
        SendFailure::Other(_) => true,
    }
}

/// A message that could not be sent fails exactly if the failure is final, and is sent later
/// otherwise.
pub proof fn law_result_of_a_failure(failure: SendFailure, r: SendResult)
    ensures
        call_ensures(SendFailure::result, (&failure,), r) ==> {
            &&& !(r is Success)
            &&& r is Failure <==> is_final(failure)
            &&& r is Retry <==> !is_final(failure)
            &&& failure matches SendFailure::Envelope(reason) ==> r->Failure_0@ == reason@
            &&& failure matches SendFailure::Other(reason) ==> r->Failure_0@ == reason@
        },
{
    reply::law_only_final_failures_fail(failure);
    reply::law_result_is_seen_as_it_is(r);
}

/// After a message was handed over, the connection is kept. After a failure it is dropped, unless
/// there was none, and the error is remembered. The message is marked as failed exactly if it has
/// an identifier and the failure is final. A message to nobody is no matter of the connection.
pub proof fn law_sending_a_message(
    recipients: Vec<String>,
    failure: Option<(SendFailure, String)>,
    msg_id: Option<MsgId>,
    r: SendDecision,
)
    ensures
        forall|s: &mut Smtp| #[trigger]
            call_ensures(Smtp::smtp_send, (s, &recipients, failure, msg_id), r) ==> {
                let before = *s;
                let after = *final(s);
                if recipients@.len() == 0 {
                    after == before && r.result is Success && !r.quit && r.mark_failed is None
                } else {
                    match failure {
                        None => {
                            &&& r.result is Success
                            &&& !r.quit
                            &&& r.mark_failed is None
                            &&& after.connected == before.connected
                            &&& after.last_success == before.last_success
                            &&& after.transport_id == before.transport_id
                            &&& after@.from == before@.from
                            &&& after.last_send_error is None
                        },
                        Some((f, error)) => {
                            &&& r.result is Failure <==> is_final(f)
                            &&& r.result is Retry <==> !is_final(f)
                            &&& after.last_send_error is Some
                            &&& after.last_send_error->0@ == error@
                            &&& after.transport_id == before.transport_id
                            &&& after@.from == before@.from
                            &&& f is NoTransport ==> !r.quit && after.connected == before.connected
                                && after.last_success == before.last_success
                            &&& !(f is NoTransport) ==> r.quit == before.connected
                                && !after.connected && after.last_success is None
                            &&& r.mark_failed is Some <==> msg_id is Some && is_final(f)
                            &&& r.mark_failed matches Some((id, reason)) ==> Some(id) == msg_id
                                && r.result is Failure && reason@ == r.result->Failure_0@
                        },
                    }
                }
            },
{
    if let Some((f, _)) = failure {
        reply::law_only_final_failures_fail(f);
    }
    reply::law_result_is_seen_as_it_is(r.result);
}

/// A message is handed over exactly if it has a recipient; otherwise it counts as sent.
pub proof fn law_plan_of_sending(smtp: Smtp, recipients: Vec<String>, r: SendPlan)
    ensures
        call_ensures(Smtp::plan_send, (&smtp, &recipients), r) ==> {
            &&& r is HandOver <==> recipients@.len() > 0
            &&& r matches SendPlan::Done(d) ==> d.result is Success && !d.quit
                && d.mark_failed is None
        },
{
}

/// A disconnect ends the connection, a login makes one, and the transport is remembered.
pub proof fn law_changes_of_the_connection(user: &str, id: u32, now: u64)
    ensures
        forall|s: &mut Smtp, quit: bool| #[trigger]
            call_ensures(Smtp::disconnect, (s,), quit) ==> quit == (*s).connected && !(*final(s)).connected && (*final(s)).last_success is None && (*final(s)).transport_id == (
            *s).transport_id,
        forall|s: &mut Smtp, event: String| #[trigger]
            call_ensures(Smtp::logged_in, (s, user, now), event) ==> (*final(s)).connected && (
            *final(s)).last_success == Some(now) && (*final(s)).transport_id == (*s).transport_id
                && event@ == "SMTP-LOGIN as "@ + user@ + " ok"@,
        forall|s: &mut Smtp, r: ()| #[trigger]
            call_ensures(Smtp::connected_to, (s, id), r) ==> (*final(s)).transport_id == Some(id)
                && (*final(s)).connected == (*s).connected && (*final(s)).last_success == (
            *s).last_success,
{
}

/// A connection may be stale exactly if 61 seconds or more have passed since it last worked, and
/// there is one exactly if it says so.
pub proof fn law_state_of_the_connection(smtp: Smtp, now: u64, r: bool)
    ensures
        call_ensures(Smtp::has_maybe_stale_connection, (&smtp, now), r) ==> (r
            <==> smtp.last_success is Some && now - smtp.last_success->0 >= 61_000_000_000),
        call_ensures(Smtp::is_connected, (&smtp,), r) ==> r == smtp.connected,
{
}

/// A stale connection is dropped before anything else, and one that is left is used.
pub proof fn law_beginning_to_connect(now: u64, r: ConnectStart)
    ensures
        forall|s: &mut Smtp| #[trigger]
            call_ensures(Smtp::connect_configured, (s, now), r) ==> {
                let stale = (*s).last_success is Some && now - (*s).last_success->0
                    >= 61_000_000_000;
                &&& r.quit == (stale && (*s).connected)
                &&& (*final(s)).connected == ((*s).connected && !stale)
                &&& (*final(s)).transport_id == (*s).transport_id
                &&& (*final(s)).connected ==> r.action == ConnectAction::Finish(Ok(()))
                &&& !(*final(s)).connected ==> r.action is GetTransports
            },
{
}

/// The jobs do what their courses say.
pub proof fn law_jobs_take_their_steps(
    send: (SendJob, SendEvent, (SendJob, SendAction)),
    mdn: (MdnJob, MdnEvent, (MdnJob, MdnAction)),
    server: (ServerJob, ServerEvent, (ServerJob, ServerAction)),
    connect: (ConnectJob, ConnectEvent, (ConnectJob, ConnectAction)),
    update: (KeyupdateJob, KeyupdateEvent, (KeyupdateJob, KeyupdateAction)),
    round: (SendRound, RoundEvent, (SendRound, RoundAction)),
)
    ensures
        forall|s: &mut Smtp| #[trigger]
            call_ensures(SendJob::step, (send.0, s, send.1), send.2) ==> send_job::steps(
                send.0,
                (*s)@,
                send.1,
                send.2.0,
                send.2.1,
            ) && (*final(s)).connected == (*s).connected && (*final(s)).transport_id == (
            *s).transport_id && (*final(s)).last_success == (*s).last_success,
        forall|s: &mut Smtp| #[trigger]
            call_ensures(MdnJob::step, (mdn.0, s, mdn.1), mdn.2) ==> mdn_job::steps(
                mdn.0,
                (*s)@,
                mdn.1,
                mdn.2.0,
                mdn.2.1,
            ) && (*final(s)).connected == (*s).connected && (*final(s)).transport_id == (
            *s).transport_id && (*final(s)).last_success == (*s).last_success,
        forall|s: &mut Smtp| #[trigger]
            call_ensures(ServerJob::step, (server.0, s, server.1), server.2)
                ==> connect_job::server_steps(
                server.0,
                (*s)@,
                server.1,
                server.2.0,
                server.2.1,
                (*final(s))@,
            ),
        forall|s: &mut Smtp| #[trigger]
            call_ensures(ConnectJob::step, (connect.0, s, connect.1), connect.2)
                ==> connect_job::steps(
                connect.0,
                (*s)@,
                connect.1,
                connect.2.0,
                connect.2.1,
                (*final(s))@,
            ),
        call_ensures(KeyupdateJob::step, (update.0, update.1), update.2) ==> keyupdate_job::steps(
            update.0,
            update.1,
            update.2.0,
            update.2.1,
        ),
        call_ensures(SendRound::step, (round.0, round.1), round.2) ==> send_round::steps(
            round.0,
            round.1,
            round.2.0,
            round.2.1,
        ),
{
}

/// The jobs begin where their courses do.
pub proof fn law_jobs_begin(
    send: (SendJob, SendAction),
    mdn: (MdnJob, MdnAction),
    update: (KeyupdateJob, KeyupdateAction),
    round: (SendRound, RoundAction),
)
    ensures
        call_ensures(SendJob::new, (), send) ==> send.0 is Connecting && send.1 is Connect,
        call_ensures(MdnJob::new, (), mdn) ==> mdn.0 is Picking && mdn.1 is Pick,
        call_ensures(KeyupdateJob::new, (), update) ==> update.0 is Comparing
            && update.1 is GetRelays,
        call_ensures(SendRound::new, (), round) ==> round.0 is CheckingUpdates
            && round.1 is CheckRatelimit,
{
}

/// A delivery starts with the valid recipients that were not served, and gives out portions that
/// fit the server until nobody is left.
pub proof fn law_delivery_gives_out_portions(
    recipients: Vec<String>,
    sent_to: Vec<String>,
    limit: u32,
    d: Delivery,
    a: Seq<char>,
)
    ensures
        call_ensures(Delivery::new, (&recipients, &sent_to, limit), d) ==> {
            &&& d@.recipients.contains(a) <==> text::texts(recipients@).contains(a) && !text::texts(
                sent_to@,
            ).contains(a) && address::valid_address(a)
            &&& d@.done == 0 && d@.in_flight == 0
            &&& d@.limit == if limit == 0 {
                1
            } else {
                limit
            }
        },
        forall|s: &mut Delivery, r: Result<Vec<String>, SmtpError>| #[trigger]
            call_ensures(Delivery::next_chunk, (s,), r) && (*s).wf() ==> {
                let before = (*s)@;
                let after = (*final(s))@;
                let left = before.recipients.len() - before.done - before.in_flight;
                &&& r is Err <==> left > u32::MAX
                &&& r is Err ==> *final(s) == *s
                &&& r matches Ok(chunk) ==> {
                    &&& text::texts(chunk@) == before.recipients.subrange(
                        before.done + before.in_flight,
                        before.done + before.in_flight + chunk@.len(),
                    )
                    &&& chunk@.len() == if before.limit <= left {
                        before.limit as int
                    } else {
                        left
                    }
                    &&& after.recipients == before.recipients
                    &&& after.done + after.in_flight == before.done + before.in_flight + chunk@.len()
                }
            },
{
    let sent = text::texts(sent_to@);
    crate::delivery::law_pending_recipients(text::texts(recipients@), sent.to_set());
    assert(sent.to_set().contains(a) == sent.contains(a));
    assert forall|s: &mut Delivery, r: Result<Vec<String>, SmtpError>| #[trigger]
        call_ensures(Delivery::next_chunk, (s,), r) && (*s).wf() implies {
        let before = (*s)@;
        let after = (*final(s))@;
        let left = before.recipients.len() - before.done - before.in_flight;
        &&& r is Err <==> left > u32::MAX
        &&& r is Err ==> *final(s) == *s
        &&& r matches Ok(chunk) ==> {
            &&& text::texts(chunk@) == before.recipients.subrange(
                before.done + before.in_flight,
                before.done + before.in_flight + chunk@.len(),
            )
            &&& chunk@.len() == if before.limit <= left {
                before.limit as int
            } else {
                left
            }
            &&& after.recipients == before.recipients
            &&& after.done + after.in_flight == before.done + before.in_flight + chunk@.len()
        }
    } by {
        (*s).lemma_wf();
        if let Ok(chunk) = r {
            assert(text::texts(chunk@).len() == chunk@.len());
        }
    }
}

// ---------------------------------------------------------------------------
// Transports
// ---------------------------------------------------------------------------

/// Whether the table has a row of an address that was added at a time or before.
pub open spec fn has_row_until(store: TransportStore, addr: Seq<char>, timestamp: i64) -> bool {
    exists|k: int|
        0 <= k < store.rows@.len() && (#[trigger] store.rows@[k]).addr@ == addr
            && store.rows@[k].add_timestamp <= timestamp
}

proof fn lemma_row_until(store: TransportStore, addr: Seq<char>, timestamp: i64)
    requires
        store.wf(),
    ensures
        has_row_until(store, addr, timestamp) <==> store@.table.contains_key(addr)
            && store@.table[addr].add_timestamp <= timestamp,
{
    if has_row_until(store, addr, timestamp) {
        let k = choose|k: int|
            0 <= k < store.rows@.len() && (#[trigger] store.rows@[k]).addr@ == addr
                && store.rows@[k].add_timestamp <= timestamp;
        transport_laws::law_state_shows_the_rows(store, k, addr);
    }
    if store@.table.contains_key(addr) {
        let k = transport_store::lemma_table_row_of(store.rows@, addr);
        assert(store.rows@[k].addr@ == addr);
    }
}

/// Deleting a transport leaves no row of the address that was added at the time of the removal or
/// before, and reports a row exactly if there was one.
pub proof fn law_deleting_a_transport(addr: &str, timestamp: i64, r: Option<u32>)
    ensures
        forall|s: &mut TransportStore| #[trigger]
            call_ensures(TransportStore::delete_transport_row, (s, addr, timestamp), r) && (
            *s).wf() ==> {
                &&& !has_row_until(*final(s), addr@, timestamp)
                &&& r is Some <==> has_row_until(*s, addr@, timestamp)
                &&& r is Some ==> exists|k: int|
                    0 <= k < (*s).rows@.len() && (#[trigger] (*s).rows@[k]).addr@ == addr@ && (
                    *s).rows@[k].id == r->0
                &&& (*final(s)).configured_addr == (*s).configured_addr
                &&& exists|k: int|
                    0 <= k < (*final(s)).removed@.len() && (#[trigger] (*final(s)).removed@[k]).addr@ == addr@ && (*final(s)).removed@[k].timestamp
                        >= timestamp
            },
{
    assert forall|s: &mut TransportStore| #[trigger]
        call_ensures(TransportStore::delete_transport_row, (s, addr, timestamp), r) && (
        *s).wf() implies {
        &&& !has_row_until(*final(s), addr@, timestamp)
        &&& r is Some <==> has_row_until(*s, addr@, timestamp)
        &&& r is Some ==> exists|k: int|
            0 <= k < (*s).rows@.len() && (#[trigger] (*s).rows@[k]).addr@ == addr@ && (
            *s).rows@[k].id == r->0
        &&& (*final(s)).configured_addr == (*s).configured_addr
        &&& exists|k: int|
            0 <= k < (*final(s)).removed@.len() && (#[trigger] (*final(s)).removed@[k]).addr@
                == addr@ && (*final(s)).removed@[k].timestamp >= timestamp
    } by {
        let before = *s;
        let after = *final(s);
        let removal = transport_store::Removal { addr: addr@, timestamp };
        transport_laws::law_removal_is_carried_out(before@, removal);
        lemma_row_until(before, addr@, timestamp);
        lemma_row_until(after, addr@, timestamp);
        if before@.table.contains_key(addr@) {
            let k = transport_store::lemma_table_row_of(before.rows@, addr@);
            assert(before.rows@[k].addr@ == addr@);
        }
        transport_laws::law_state_shows_the_rows(after, 0, addr@);
        let k = choose|k: int|
            0 <= k < after.removed@.len() && (#[trigger] after.removed@[k]).addr@ == addr@;
        transport_laws::law_state_shows_the_rows(after, k, addr@);
    }
}

/// A saved transport has a row with its columns, and the first one becomes the sending address. It
/// is refused, and nothing changes, exactly if the name of its folder is empty.
pub proof fn law_saving_a_transport(data: TransportData, r: Result<bool, TransportError>)
    ensures
        forall|s: &mut TransportStore| #[trigger]
            call_ensures(TransportStore::save_transport, (s, &data), r) && (*s).wf() && (
            *s).next_id < u32::MAX ==> {
                &&& r is Err <==> data.imap_folder is Some && data.imap_folder->0@.len() == 0
                &&& r is Err ==> *final(s) == *s
                &&& r is Ok ==> exists|k: int|
                    0 <= k < (*final(s)).rows@.len() && (#[trigger] (*final(s)).rows@[k]).addr@
                        == data.addr@ && (*final(s)).rows@[k].entered_param@
                        == data.entered_param@ && (*final(s)).rows@[k].configured_param@
                        == data.configured_param@ && (*final(s)).rows@[k].add_timestamp
                        >= data.timestamp
                &&& r is Ok && (*s).configured_addr is None ==> (*final(s)).configured_addr is Some
                    && (*final(s)).configured_addr->0@ == data.addr@
            },
{
    assert forall|s: &mut TransportStore| #[trigger]
        call_ensures(TransportStore::save_transport, (s, &data), r) && (*s).wf() && (*s).next_id
            < u32::MAX implies {
        &&& r is Err <==> data.imap_folder is Some && data.imap_folder->0@.len() == 0
        &&& r is Err ==> *final(s) == *s
        &&& r is Ok ==> exists|k: int|
            0 <= k < (*final(s)).rows@.len() && (#[trigger] (*final(s)).rows@[k]).addr@
                == data.addr@ && (*final(s)).rows@[k].entered_param@ == data.entered_param@ && (
            *final(s)).rows@[k].configured_param@ == data.configured_param@ && (*final(s)).rows@[k].add_timestamp >= data.timestamp
        &&& r is Ok && (*s).configured_addr is None ==> (*final(s)).configured_addr is Some && (
        *final(s)).configured_addr->0@ == data.addr@
    } by {
        if r is Ok {
            transport_laws::law_saved_row_has_the_columns(*s, data, *final(s));
        }
    }
}

/// Processing a message carries out its removals: for everything that it lists as removed or holds
/// unpublished, no row of the address that was added at that time or before is left, unless there
/// is a single row. An account that had a transport has one afterwards, and the sending address
/// has a row.
pub proof fn law_processing_a_message(
    data: Vec<TransportData>,
    removed: Vec<RemovedTransportData>,
    r: Result<SyncOutcome, TransportError>,
)
    ensures
        forall|s: &mut TransportStore| #[trigger]
            call_ensures(TransportStore::sync_transports, (s, &data, &removed), r) && (*s).wf() && (
            *s).next_id + data@.len() <= u32::MAX && r is Ok ==> {
                let after = *final(s);
                &&& forall|k: int|
                    0 <= k < removed@.len() && after.rows@.len() > 1 ==> !has_row_until(
                        after,
                        (#[trigger] removed@[k]).addr@,
                        removed@[k].timestamp,
                    )
                &&& forall|k: int|
                    0 <= k < data@.len() && !(#[trigger] data@[k]).is_published
                        && after.rows@.len() > 1 ==> !has_row_until(
                        after,
                        data@[k].addr@,
                        data@[k].timestamp,
                    )
                &&& (*s).rows@.len() > 0 ==> after.rows@.len() > 0
                &&& after.rows@.len() > 0 ==> after.configured_addr is Some && exists|m: int|
                    0 <= m < after.rows@.len() && (#[trigger] after.rows@[m]).addr@
                        == after.configured_addr->0@
            },
{
    assert forall|s: &mut TransportStore| #[trigger]
        call_ensures(TransportStore::sync_transports, (s, &data, &removed), r) && (*s).wf() && (
        *s).next_id + data@.len() <= u32::MAX && r is Ok implies {
        let after = *final(s);
        &&& forall|k: int|
            0 <= k < removed@.len() && after.rows@.len() > 1 ==> !has_row_until(
                after,
                (#[trigger] removed@[k]).addr@,
                removed@[k].timestamp,
            )
        &&& forall|k: int|
            0 <= k < data@.len() && !(#[trigger] data@[k]).is_published && after.rows@.len() > 1
                ==> !has_row_until(after, data@[k].addr@, data@[k].timestamp)
        &&& (*s).rows@.len() > 0 ==> after.rows@.len() > 0
        &&& after.rows@.len() > 0 ==> after.configured_addr is Some && exists|m: int|
            0 <= m < after.rows@.len() && (#[trigger] after.rows@[m]).addr@
                == after.configured_addr->0@
    } by {
        let before = *s;
        let after = *final(s);
        let offers = transport_store::offers_of(data@);
        let list = transport_store::listed_removals(removed@);
        transport_load::law_store_is_a_valid_state(before);
        transport_load::law_store_is_a_valid_state(after);
        assert forall|k: int| 0 <= k < removed@.len() && after.rows@.len() > 1 implies !has_row_until(
            after,
            (#[trigger] removed@[k]).addr@,
            removed@[k].timestamp,
        ) by {
            assert(list[k] == transport_store::Removal {
                addr: removed@[k].addr@,
                timestamp: removed@[k].timestamp,
            });
            assert(list.contains(list[k]));
            transport_laws::law_sync_carries_out_removals(
                before@,
                offers,
                list,
                removed@[k].addr@,
                removed@[k].timestamp,
            );
            lemma_row_until(after, removed@[k].addr@, removed@[k].timestamp);
        }
        assert forall|k: int|
            0 <= k < data@.len() && !(#[trigger] data@[k]).is_published && after.rows@.len()
                > 1 implies !has_row_until(after, data@[k].addr@, data@[k].timestamp) by {
            assert(!offers[k].is_published && offers[k].addr == data@[k].addr@
                && offers[k].timestamp == data@[k].timestamp);
            assert(transport_laws::asks_to_remove(
                offers,
                list,
                data@[k].addr@,
                data@[k].timestamp,
            ));
            transport_laws::law_sync_carries_out_removals(
                before@,
                offers,
                list,
                data@[k].addr@,
                data@[k].timestamp,
            );
            lemma_row_until(after, data@[k].addr@, data@[k].timestamp);
        }
        if before.rows@.len() > 0 {
            transport_laws::law_sync_keeps_a_transport(before@, offers, list);
        }
        if after.rows@.len() > 0 {
            transport_laws::law_sending_address_has_a_transport(before@, offers, list);
            let m = transport_store::lemma_table_row_of(after.rows@, after@.primary->0);
            assert(after.rows@[m].addr@ == after.configured_addr->0@);
        }
    }
}

/// The transport of the sending address is loaded, with its identifier and parameters. There is
/// none exactly if there is no sending address, and it is an error if that has no row.
pub proof fn law_loading_a_transport(
    store: TransportStore,
    r: Result<Option<(u32, String)>, TransportError>,
)
    requires
        store.wf(),
    ensures
        call_ensures(TransportStore::load, (&store,), r) ==> match r {
            Ok(None) => store.configured_addr is None,
            Ok(Some((id, json))) => store.configured_addr is Some && exists|k: int|
                0 <= k < store.rows@.len() && (#[trigger] store.rows@[k]).addr@
                    == store.configured_addr->0@ && store.rows@[k].id == id
                    && store.rows@[k].configured_param@ == json@,
            Err(_) => store.configured_addr is Some && forall|k: int|
                0 <= k < store.rows@.len() ==> (#[trigger] store.rows@[k]).addr@
                    != store.configured_addr->0@,
        },
{
    if call_ensures(TransportStore::load, (&store,), r) && store.configured_addr is Some {
        let addr = store.configured_addr->0@;
        if store@.table.contains_key(addr) {
            let k = transport_store::lemma_table_row_of(store.rows@, addr);
            assert(store.rows@[k].addr@ == addr);
        } else {
            assert forall|k: int| 0 <= k < store.rows@.len() implies (
            #[trigger] store.rows@[k]).addr@ != addr by {
                transport_store::lemma_table_row(store.rows@, k);
            }
        }
    }
}

/// All transports are loaded with their identifiers and parameters, in the order of the rows; and
/// their addresses are listed by when they were added.
pub proof fn law_loading_all_transports(
    store: TransportStore,
    all: Vec<(u32, String)>,
    addrs: Vec<String>,
    j: int,
    k: int,
)
    requires
        store.wf(),
    ensures
        call_ensures(TransportStore::load_all, (&store,), all) ==> all@.len() == store.rows@.len()
            && (0 <= k < all@.len() ==> all@[k].0 == store.rows@[k].id && all@[k].1@
            == store.rows@[k].configured_param@),
        call_ensures(TransportStore::transport_addrs, (&store,), addrs) && 0 <= j < k
            < addrs@.len() ==> exists|p: int, q: int|
            0 <= p < store.rows@.len() && 0 <= q < store.rows@.len() && (
            #[trigger] store.rows@[p]).addr@ == addrs@[j]@ && (#[trigger] store.rows@[q]).addr@
                == addrs@[k]@ && (store.rows@[p].add_timestamp > store.rows@[q].add_timestamp || (
            store.rows@[p].add_timestamp == store.rows@[q].add_timestamp && store.rows@[p].id
                > store.rows@[q].id)),
{
    if call_ensures(TransportStore::transport_addrs, (&store,), addrs) && 0 <= j < k
        < addrs@.len() {
        let list = text::texts(addrs@);
        transport_laws::law_addresses_are_listed_by_time(store@, list);
        assert(list[j] == addrs@[j]@ && list[k] == addrs@[k]@);
        assert(list.contains(list[j]) && list.contains(list[k]));
        let p = transport_store::lemma_table_row_of(store.rows@, list[j]);
        let q = transport_store::lemma_table_row_of(store.rows@, list[k]);
        assert(store.rows@[p].addr@ == addrs@[j]@ && store.rows@[q].addr@ == addrs@[k]@);
    }
}

/// What is sent to the other devices holds every transport but the first with its parameters and
/// time, published, and every removal; and nothing of the first transport.
pub proof fn law_sending_the_transports(store: TransportStore, data: SyncData, i: int)
    ensures
        call_ensures(TransportStore::sync_data, (&store,), data) ==> {
            &&& 0 <= i < store.rows@.len() && store.rows@[i].id > 1 ==> exists|k: int|
                0 <= k < data.transports@.len() && (#[trigger] data.transports@[k]).entered_param@
                    == store.rows@[i].entered_param@ && data.transports@[k].configured_param@
                    == store.rows@[i].configured_param@ && data.transports@[k].timestamp
                    == store.rows@[i].add_timestamp && data.transports@[k].is_published
            &&& 0 <= i < data.transports@.len() ==> exists|k: int|
                0 <= k < store.rows@.len() && (#[trigger] store.rows@[k]).id > 1
                    && data.transports@[i].entered_param@ == store.rows@[k].entered_param@
                    && data.transports@[i].configured_param@ == store.rows@[k].configured_param@
                    && data.transports@[i].timestamp == store.rows@[k].add_timestamp
            &&& data.removed_transports@.len() == store.removed@.len()
            &&& 0 <= i < store.removed@.len() ==> data.removed_transports@[i].addr@
                == store.removed@[i].addr@ && data.removed_transports@[i].timestamp
                == store.removed@[i].timestamp
        },
{
    if call_ensures(TransportStore::sync_data, (&store,), data) {
        let sent = transport_load::announcements(store.rows@);
        transport_load::law_other_transports_are_announced(store.rows@, i);
        assert(transport_load::announced(data.transports@).len() == data.transports@.len());
        if 0 <= i < store.rows@.len() && store.rows@[i].id > 1 {
            let k = choose|k: int|
                0 <= k < sent.len() && (#[trigger] sent[k]).entered == store.rows@[i].entered_param@
                    && sent[k].configured == store.rows@[i].configured_param@ && sent[k].timestamp
                    == store.rows@[i].add_timestamp && sent[k].is_published;
            transport_load::law_announcement_is_seen_as_it_is(data.transports@, k);
            assert(data.transports@[k].entered_param@ == store.rows@[i].entered_param@);
        }
        if 0 <= i < data.transports@.len() {
            transport_load::law_announcement_is_seen_as_it_is(data.transports@, i);
        }
        let a = transport_store::listed_removals(data.removed_transports@);
        let b = transport_store::listed_removals(store.removed@);
        assert(a.len() == data.removed_transports@.len() && b.len() == store.removed@.len());
        if 0 <= i < store.removed@.len() {
            assert(a[i] == data.removed_transports@[i].removal());
            assert(b[i] == store.removed@[i].removal());
        }
    }
}

// ---------------------------------------------------------------------------
// Login parameters
// ---------------------------------------------------------------------------

/// Old settings of an account that is configured are read with each of them in its place, if
/// nothing is wrong with them; those of one that is not configured are not.
pub proof fn law_reading_old_settings(
    config: LegacyConfig,
    r: Result<Option<ConfiguredLoginParam>, TransportError>,
)
    ensures
        call_ensures(ConfiguredLoginParam::load_legacy, (config,), r) ==> {
            &&& r == Ok::<Option<ConfiguredLoginParam>, TransportError>(None)
                <==> !config.configured
            &&& r is Err <==> config.configured && config.problem() is Some
            &&& r matches Ok(Some(p)) ==> {
                &&& config.mail_pw == Some(p.imap_password)
                &&& config.send_pw == Some(p.smtp_password)
                &&& config.mail_user is Some ==> p.imap_user@ == config.mail_user->0@
                &&& config.send_user is Some ==> p.smtp_user@ == config.send_user->0@
                &&& config.imap_servers is Servers && config.smtp_servers is Servers
                    ==> config.imap_servers == transport::ServerList::Servers(p.imap)
                    && config.smtp_servers == transport::ServerList::Servers(p.smtp)
            }
        },
{
}

/// Stored parameters are read with every field in its place; only an empty name of a folder is an
/// error. Parameters are stored with every field in its place.
pub proof fn law_reading_stored_parameters(
    json: ConfiguredLoginParamJson,
    r: Result<ConfiguredLoginParam, TransportError>,
    p: ConfiguredLoginParam,
    stored: ConfiguredLoginParamJson,
)
    ensures
        call_ensures(ConfiguredLoginParam::from_json, (json,), r) ==> {
            &&& r is Err <==> json.imap_folder is Some && json.imap_folder->0@.len() == 0
            &&& r matches Ok(q) ==> {
                &&& q.addr == json.addr
                &&& q.imap == json.imap
                &&& q.imap_folder == json.imap_folder
                &&& q.imap_user == json.imap_user
                &&& q.imap_password == json.imap_password
                &&& q.smtp == json.smtp
                &&& q.smtp_user == json.smtp_user
                &&& q.smtp_password == json.smtp_password
                &&& q.certificate_checks == json.certificate_checks
            }
        },
        call_ensures(ConfiguredLoginParam::into_json, (p,), stored) ==> {
            &&& stored.addr == p.addr
            &&& stored.imap == p.imap
            &&& stored.imap_folder == p.imap_folder
            &&& stored.imap_user == p.imap_user
            &&& stored.imap_password == p.imap_password
            &&& stored.smtp == p.smtp
            &&& stored.smtp_user == p.smtp_user
            &&& stored.smtp_password == p.smtp_password
            &&& stored.certificate_checks == p.certificate_checks
            &&& !stored.oauth2
        },
{
}

/// Certificates are checked as the parameters ask for.
pub proof fn law_checking_certificates(
    p: ConfiguredLoginParam,
    through_proxy: bool,
    override_disables: bool,
    r: bool,
)
    ensures
        call_ensures(ConfiguredLoginParam::strict_tls, (&p, through_proxy, override_disables), r)
            ==> {
            &&& p.certificate_checks is Strict ==> r
            &&& p.certificate_checks is AcceptInvalidCertificates ==> !r
            &&& p.certificate_checks is AcceptInvalidCertificates2 ==> !r
            &&& override_disables && !(p.certificate_checks is Strict) ==> !r
            &&& !override_disables && p.certificate_checks is Automatic ==> r
            &&& !override_disables && p.certificate_checks is OldAutomatic ==> r == through_proxy
        },
{
}

/// The servers are put into the order of when they were last connected to.
pub proof fn law_ordering_the_servers(
    params: Vec<ConfiguredServerLoginParam>,
    stamps: Vec<Option<i64>>,
    r: Vec<ConfiguredServerLoginParam>,
    j: int,
    k: int,
)
    requires
        stamps@.len() == params@.len(),
        0 <= j < k < params@.len(),
    ensures
        call_ensures(transport::prioritize_server_login_params, (&params, &stamps), r) ==> {
            &&& r@.len() == params@.len()
            &&& r@.to_multiset() == params@.to_multiset()
            &&& exists|a: int, b: int|
                0 <= a < params@.len() && 0 <= b < params@.len() && a != b && r@[j]
                    == #[trigger] params@[a] && r@[k] == #[trigger] params@[b] && match (
                    stamps@[a],
                    stamps@[b],
                ) {
                    (Some(x), Some(y)) => x > y || (x == y && a < b),
                    (Some(_), None) => true,
                    (None, Some(_)) => false,
                    (None, None) => a < b,
                }
        },
{
    transport::law_last_server_is_tried_first(params@, stamps@, j, k);
    transport::law_prioritizing_keeps_the_servers(params@, stamps@);
}

// ---------------------------------------------------------------------------
// The queues
// ---------------------------------------------------------------------------

/// A queued message becomes a row with its fields, under its identifier. The side effects concern
/// the chat that they name: the time of the locations is theirs, that of the avatar is now.
pub proof fn law_queueing_a_message(
    now: i64,
    msg_id: MsgId,
    mail: QueuedMail,
    effects: Option<&SideEffects>,
    r: Enqueue,
)
    ensures
        call_ensures(queue::enqueue_mail, (now, msg_id, &mail, effects), r) ==> {
            &&& r.row.msg_id == msg_id
            &&& r.row.rfc724_mid@ == mail.rfc724_mid@
            &&& r.row.mime@ == mail.raw_message@
            &&& r.row.display_name@ == mail.display_name@
            &&& r.row.should_attach_pubkey == mail.should_attach_pubkey
            &&& r.row.should_compress == mail.should_compress
            &&& r.row.should_sign == mail.should_sign
            &&& r.row.bcc_self == mail.bcc_self
            &&& r.row.sent_to@.len() == 0
            &&& r.row.recipients@ == text::joined(text::texts(mail.recipients@), " "@)
            &&& r.row.is_encrypted <==> !(mail.encryption is No)
            &&& mail.encryption matches Encryption::Symmetric { shared_secret }
                ==> r.row.shared_secret@ == shared_secret@
            &&& !(mail.encryption is Symmetric) ==> r.row.shared_secret@.len() == 0
            &&& effects is None ==> r.locations_last_sent is None && r.selfavatar_timestamp is None
                && r.delete_sync_items is None
            &&& effects matches Some(e) ==> {
                &&& r.locations_last_sent is Some <==> e.last_added_location_timestamp is Some
                &&& r.locations_last_sent matches Some((chat, t)) ==> chat == e.chat_id && Some(t)
                    == e.last_added_location_timestamp
                &&& r.selfavatar_timestamp is Some <==> e.avatar_is_attached
                &&& r.selfavatar_timestamp matches Some((chat, t)) ==> chat == e.chat_id && t == now
                &&& r.delete_sync_items is Some <==> e.sync_ids_to_delete is Some
                &&& r.delete_sync_items is Some ==> r.delete_sync_items->0@
                    == "DELETE FROM multi_device_sync WHERE id IN ("@ + e.sync_ids_to_delete->0@
                    + ")"@
            }
        },
{
    if call_ensures(queue::enqueue_mail, (now, msg_id, &mail, effects), r) {
        queue::law_row_has_the_fields_of_the_mail(mail, r.row);
    }
}

/// A row is loaded with its columns in their fields. It is an error exactly if the columns on
/// encryption do not fit together, or a key that the message is encrypted to cannot be read.
pub proof fn law_loading_a_message(
    row: QueueRow,
    keys: Vec<StoredKey>,
    r: Result<QueuedMail, QueueError>,
)
    ensures
        call_ensures(queue::load_queued_mail, (row, &keys), r) ==> {
            let secret = row.shared_secret@.len() > 0;
            let prints = row.encryption_fingerprints@.len() > 0;
            &&& r == Err::<QueuedMail, QueueError>(QueueError::InvalidEncryption)
                <==> if row.is_encrypted {
                secret && prints
            } else {
                secret || prints
            }
            &&& r == Err::<QueuedMail, QueueError>(QueueError::UnreadableKey) ==> row.is_encrypted
                && !secret && prints
            &&& r matches Ok(mail) ==> {
                &&& mail.rfc724_mid@ == row.rfc724_mid@
                &&& mail.raw_message@ == row.mime@
                &&& mail.display_name@ == row.display_name@
                &&& mail.should_attach_pubkey == row.should_attach_pubkey
                &&& mail.should_compress == row.should_compress
                &&& mail.should_sign == row.should_sign
                &&& mail.bcc_self == row.bcc_self
                &&& text::texts(mail.recipients@) == text::stored_list(row.recipients@)
                &&& text::texts(mail.sent_to@) == text::stored_list(row.sent_to@)
                &&& mail.encryption is No <==> !row.is_encrypted
                &&& mail.encryption is Symmetric <==> row.is_encrypted && secret
                &&& mail.encryption matches Encryption::Symmetric { shared_secret }
                    ==> shared_secret@ == row.shared_secret@
            }
        },
{
    if call_ensures(queue::load_queued_mail, (row, &keys), r) {
        queue::law_columns_on_encryption(row@, keys@);
        if let Ok(mail) = r {
            queue::law_loaded_mail_has_the_columns_of_the_row(
                row,
                queue::stored_encryption(row@, keys@)->0,
                mail,
            );
        }
    }
}

/// The receipt to send is one that was tried least, and there is none exactly if the queue is
/// empty. What is sent along are the other messages with a receipt for the same contact.
pub proof fn law_picking_receipts(
    q: MdnQueue,
    next: Option<usize>,
    from_id: u32,
    mid: &str,
    along: Vec<String>,
    m: Seq<char>,
    j: int,
)
    ensures
        call_ensures(MdnQueue::next, (&q,), next) ==> {
            &&& next is None <==> q.rows@.len() == 0
            &&& next is Some && 0 <= j < q.rows@.len() ==> next->0 < q.rows@.len()
                && q.rows@[next->0 as int].retries <= q.rows@[j].retries
        },
        call_ensures(MdnQueue::additional, (&q, from_id, mid), along) ==> (text::texts(
            along@,
        ).contains(m) <==> m != mid@ && exists|i: int|
            0 <= i < q.rows@.len() && (#[trigger] q.rows@[i]).from_id == from_id
                && q.rows@[i].rfc724_mid@ == m),
{
    assert(q@.len() == q.rows@.len());
    assert forall|i: int| 0 <= i < q.rows@.len() implies #[trigger] q@[i] == q.rows@[i]@ by {}
    if call_ensures(MdnQueue::next, (&q,), next) && next is Some && 0 <= j < q.rows@.len() {
        mdn_queue::law_next_receipt_was_tried_least(q@, next->0 as int, j);
    }
    mdn_queue::law_only_receipts_for_the_contact_are_sent_along(q@, from_id, mid@, m);
    if exists|i: int|
        0 <= i < q.rows@.len() && (#[trigger] q.rows@[i]).from_id == from_id
            && q.rows@[i].rfc724_mid@ == m {
        let i = choose|i: int|
            0 <= i < q.rows@.len() && (#[trigger] q.rows@[i]).from_id == from_id
                && q.rows@[i].rfc724_mid@ == m;
        assert(q@[i].from_id == from_id && q@[i].mid == m);
    }
    if exists|i: int|
        0 <= i < q@.len() && (#[trigger] q@[i]).from_id == from_id && q@[i].mid == m {
        let i = choose|i: int|
            0 <= i < q@.len() && (#[trigger] q@[i]).from_id == from_id && q@[i].mid == m;
        assert(q.rows@[i].from_id == from_id && q.rows@[i].rfc724_mid@ == m);
    }
}

/// Purging drops exactly what was tried more than six times, and removing messages removes exactly
/// their receipts.
pub proof fn law_dropping_receipts(mids: Vec<String>, mid: &str, x: mdn_queue::Receipt)
    ensures
        forall|q: &mut MdnQueue, r: ()| #[trigger]
            call_ensures(MdnQueue::purge, (q,), r) ==> ((*final(q))@.contains(x) <==> (
            *q)@.contains(x) && x.retries <= 6),
        forall|q: &mut MdnQueue, r: ()| #[trigger]
            call_ensures(MdnQueue::remove_all, (q, &mids), r) ==> ((*final(q))@.contains(x) <==> (
            *q)@.contains(x) && !text::texts(mids@).contains(x.mid)),
        forall|q: &mut MdnQueue, r: ()| #[trigger]
            call_ensures(MdnQueue::remove, (q, mid), r) ==> ((*final(q))@.contains(x) <==> (
            *q)@.contains(x) && x.mid != mid@),
{
    assert forall|q: &mut MdnQueue, r: ()| #[trigger]
        call_ensures(MdnQueue::purge, (q,), r) implies ((*final(q))@.contains(x) <==> (
    *q)@.contains(x) && x.retries <= 6) by {
        mdn_queue::law_purging_drops_what_was_tried_too_often((*q)@, Seq::empty(), x);
    }
    assert forall|q: &mut MdnQueue, r: ()| #[trigger]
        call_ensures(MdnQueue::remove_all, (q, &mids), r) implies ((*final(q))@.contains(x) <==> (
    *q)@.contains(x) && !text::texts(mids@).contains(x.mid)) by {
        mdn_queue::law_removing_receipts((*q)@, Seq::empty(), text::texts(mids@), x);
    }
    assert forall|q: &mut MdnQueue, r: ()| #[trigger]
        call_ensures(MdnQueue::remove, (q, mid), r) implies ((*final(q))@.contains(x) <==> (
    *q)@.contains(x) && x.mid != mid@) by {
        crate::order::lemma_filter_members((*q)@, mdn_queue::is_not_for(mid@), x);
    }
}

// ---------------------------------------------------------------------------
// Key updates
// ---------------------------------------------------------------------------

/// A contact with a chat that is no mere entry and a sign of life in the last three years is
/// chosen, unless as many are chosen as may be; no other contact is, none twice, and no more than
/// may be.
pub proof fn law_choosing_contacts(
    rows: Vec<Membership>,
    special: SpecialIds,
    now: i64,
    max: usize,
    r: Vec<u32>,
    id: u32,
    i: int,
    j: int,
)
    ensures
        call_ensures(keyupdate::keyupdate_candidates, (&rows, special, now, max), r) ==> {
            &&& r@.len() <= max
            &&& r@.no_duplicates()
            &&& 0 <= i < rows@.len() && keyupdate_laws::shows_member(rows@[i], special, id)
                && keyupdate_laws::shows_exchange(rows@[i]) && 0 <= j < rows@.len()
                && keyupdate_laws::shows_member(rows@[j], special, id)
                && keyupdate_laws::shows_life(rows@[j], now - 94_608_000) ==> r@.contains(id)
                || r@.len() == max
            &&& r@.contains(id) ==> exists|k: int|
                0 <= k < rows@.len() && keyupdate_laws::shows_member(
                    #[trigger] rows@[k],
                    special,
                    id,
                ) && keyupdate_laws::shows_exchange(rows@[k])
            &&& r@.contains(id) && now >= 94_608_000 ==> exists|k: int|
                0 <= k < rows@.len() && keyupdate_laws::shows_member(
                    #[trigger] rows@[k],
                    special,
                    id,
                ) && keyupdate_laws::shows_life(rows@[k], now - 94_608_000)
        },
{
    if call_ensures(keyupdate::keyupdate_candidates, (&rows, special, now, max), r) {
        keyupdate_job::law_freshest_contacts_are_chosen(
            rows@,
            special,
            keyupdate::silence_limit(now),
            max as nat,
        );
        if 0 <= i < rows@.len() && keyupdate_laws::shows_member(rows@[i], special, id)
            && keyupdate_laws::shows_exchange(rows@[i]) && 0 <= j < rows@.len()
            && keyupdate_laws::shows_member(rows@[j], special, id) && keyupdate_laws::shows_life(
            rows@[j],
            now - 94_608_000,
        ) {
            keyupdate_laws::law_lively_contact_is_chosen(
                rows@,
                special,
                now,
                max as nat,
                id,
                i,
                j,
            );
        }
        if r@.contains(id) {
            keyupdate_laws::law_chosen_contact_is_lively(rows@, special, now, max as nat, id);
        }
    }
}

/// A key update is not signed, goes to the recipients of its envelope, and is otherwise what was
/// rendered. A check is due after the debounce time, or at the end of time.
pub proof fn law_completing_a_key_update(
    mail: QueuedMail,
    envelope: &str,
    r: QueuedMail,
    now: i64,
    debounce: i64,
    at: i64,
)
    ensures
        call_ensures(keyupdate::address_keyupdate, (mail, envelope), r) ==> {
            &&& !r.should_sign
            &&& text::texts(r.recipients@) == text::stored_list(envelope@)
            &&& r.raw_message@ == mail.raw_message@
            &&& r.rfc724_mid@ == mail.rfc724_mid@
            &&& r.encryption@ == mail.encryption@
            &&& r.should_attach_pubkey == mail.should_attach_pubkey
            &&& r.should_compress == mail.should_compress
            &&& r.bcc_self == mail.bcc_self
        },
        call_ensures(keyupdate::schedule_keyupdate_check, (now, debounce), at) ==> {
            &&& i64::MIN <= now + debounce <= i64::MAX ==> at == now + debounce
            &&& now + debounce > i64::MAX ==> at == i64::MAX
            &&& now + debounce < i64::MIN ==> at == i64::MIN
        },
{
}

/// The contacts that are informed are those whose key can be encrypted to and names a relay.
pub proof fn law_informing_contacts(
    keys: Vec<StoredContactKey>,
    r: Vec<KeyupdateRecipient>,
    kept: Vec<KeyupdateRecipient>,
    i: int,
)
    ensures
        call_ensures(keyupdate::keyupdate_recipients, (keys,), r) ==> r@.to_multiset()
            == keyupdate::usable_recipients(keys@).to_multiset(),
        call_ensures(keyupdate::keep_usable, (keys,), kept) ==> kept@
            == keyupdate::usable_recipients(keys@),
        call_ensures(keyupdate::keep_usable, (keys,), kept) && 0 <= i < kept@.len()
            ==> kept@[i].relays@.len() > 0,
{
    lemma_relays_nonempty(keys@, i);
}

proof fn lemma_relays_nonempty(keys: Seq<StoredContactKey>, i: int)
    ensures
        0 <= i < keyupdate::usable_recipients(keys).len() ==> keyupdate::usable_recipients(
            keys,
        )[i].relays@.len() > 0,
    decreases keys.len(),
{
    if keys.len() > 0 {
        lemma_relays_nonempty(keys.drop_last(), i);
    }
}

/// What is reported of a message: a change if a transport or the sending address is another one,
/// the rows that are gone, and a sending address that had to be elected. It is an error if a due
/// offer has an empty folder, or if there is no sending address; then nothing is removed.
pub proof fn law_reporting_on_a_message(
    data: Vec<TransportData>,
    removed: Vec<RemovedTransportData>,
    r: Result<SyncOutcome, TransportError>,
    k: int,
)
    ensures
        forall|s: &mut TransportStore| #[trigger]
            call_ensures(TransportStore::sync_transports, (s, &data, &removed), r) && (*s).wf() && (
            *s).next_id + data@.len() <= u32::MAX ==> {
                let before = *s;
                let after = *final(s);
                let offers = transport_store::offers_of(data@);
                let refused = exists|i: int|
                    0 <= i < offers.len() && transport_laws::is_due(before@, #[trigger] offers[i])
                        && offers[i].folder == Some(Seq::<char>::empty());
                &&& r is Err && r->Err_0 is EmptyFolder <==> refused
                &&& r is Err ==> r->Err_0 is EmptyFolder || r->Err_0 is NotConfigured
                &&& r is Err && r->Err_0 is NotConfigured ==> before.configured_addr is None
                &&& r is Err && 0 <= k < before.rows@.len() ==> after@.table.contains_key(
                    before.rows@[k].addr@,
                )
                &&& r is Err ==> after@.removed == before@.removed
                &&& r matches Ok(outcome) ==> {
                    &&& after@.table != before@.table || after@.primary != before@.primary
                        ==> outcome.modified
                    &&& 0 <= k < before.rows@.len() ==> (outcome.deleted_ids@.contains(
                        before.rows@[k].id,
                    ) <==> !after@.table.contains_key(before.rows@[k].addr@))
                    &&& outcome.reelected is Some ==> after.configured_addr is Some
                        && after.configured_addr->0@ == outcome.reelected->0@ && outcome.modified
                    &&& outcome.reelected is None && before.configured_addr is Some
                        ==> after@.primary == before@.primary
                }
            },
{
    assert forall|s: &mut TransportStore| #[trigger]
        call_ensures(TransportStore::sync_transports, (s, &data, &removed), r) && (*s).wf() && (
        *s).next_id + data@.len() <= u32::MAX implies {
        let before = *s;
        let after = *final(s);
        let offers = transport_store::offers_of(data@);
        let refused = exists|i: int|
            0 <= i < offers.len() && transport_laws::is_due(before@, #[trigger] offers[i])
                && offers[i].folder == Some(Seq::<char>::empty());
        &&& r is Err && r->Err_0 is EmptyFolder <==> refused
        &&& r is Err ==> r->Err_0 is EmptyFolder || r->Err_0 is NotConfigured
        &&& r is Err && r->Err_0 is NotConfigured ==> before.configured_addr is None
        &&& r is Err && 0 <= k < before.rows@.len() ==> after@.table.contains_key(
            before.rows@[k].addr@,
        )
        &&& r is Err ==> after@.removed == before@.removed
        &&& r matches Ok(outcome) ==> {
            &&& after@.table != before@.table || after@.primary != before@.primary
                ==> outcome.modified
            &&& 0 <= k < before.rows@.len() ==> (outcome.deleted_ids@.contains(
                before.rows@[k].id,
            ) <==> !after@.table.contains_key(before.rows@[k].addr@))
            &&& outcome.reelected is Some ==> after.configured_addr is Some
                && after.configured_addr->0@ == outcome.reelected->0@ && outcome.modified
            &&& outcome.reelected is None && before.configured_addr is Some ==> after@.primary
                == before@.primary
        }
    } by {
        let before = *s;
        let after = *final(s);
        let offers = transport_store::offers_of(data@);
        let list = transport_store::listed_removals(removed@);
        transport_load::law_store_is_a_valid_state(before);
        transport_load::law_store_is_a_valid_state(after);
        transport_laws::law_sync_succeeds(before@, offers);
        transport_laws::law_failed_message_removes_nothing(before@, offers, before.rows@[k].addr@);
        transport_laws::lemma_after_offers(before@, offers);
        transport_laws::lemma_after_removals(
            before@.after_offers(offers),
            transport_store::sync_removals(offers, list),
        );
        assert forall|i: int| 0 <= i < offers.len() implies (before@.accepts(#[trigger] offers[i])
            <==> transport_laws::is_due(before@, offers[i])) && (offers[i].valid()
            <==> offers[i].folder != Some(Seq::<char>::empty())) by {
            transport_laws::law_only_an_empty_folder_is_refused(offers[i]);
        }
        if 0 <= k < before.rows@.len() {
            transport_laws::law_state_shows_the_rows(before, k, before.rows@[k].addr@);
            transport_laws::law_deleted_transports_are_reported(
                before@,
                offers,
                list,
                before.rows@[k].addr@,
            );
        }
        if after@.table != before@.table || after@.primary != before@.primary {
            if r is Ok {
                transport_laws::law_changes_are_reported(before@, offers, list);
            }
        }
    }
}

/// Saving a transport reports a change exactly if there is one.
pub proof fn law_saving_reports_changes(data: TransportData, r: Result<bool, TransportError>)
    ensures
        forall|s: &mut TransportStore| #[trigger]
            call_ensures(TransportStore::save_transport, (s, &data), r) && (*s).wf() && (
            *s).next_id < u32::MAX && r is Ok ==> (r->Ok_0 <==> (*final(s))@ != (*s)@),
{
    assert forall|s: &mut TransportStore| #[trigger]
        call_ensures(TransportStore::save_transport, (s, &data), r) && (*s).wf() && (*s).next_id
            < u32::MAX && r is Ok implies (r->Ok_0 <==> (*final(s))@ != (*s)@) by {
        let before = (*s)@;
        let after = (*final(s))@;
        let addr = data.addr@;
        if r->Ok_0 && after == before {
            assert(after.table.contains_key(addr));
            assert(after.table[addr] == before.table[addr]);
        }
    }
}

} // verus!
