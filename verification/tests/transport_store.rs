use relaymail::error::TransportError;
use relaymail::transport_store::{
    RemovedTransportData, TransportData, TransportRow, TransportStore,
};

const START: i64 = 1_000_000;

fn data(addr: &str, timestamp: i64) -> TransportData {
    TransportData {
        addr: addr.to_string(),
        entered_param: format!("entered {addr}"),
        configured_param: format!("configured {addr}"),
        imap_folder: None,
        timestamp,
        is_published: true,
    }
}

fn removal(addr: &str, timestamp: i64) -> RemovedTransportData {
    RemovedTransportData { addr: addr.to_string(), timestamp }
}

/// An account with the single transport `alice@example.org`.
fn alice() -> TransportStore {
    let mut store = TransportStore {
        rows: vec![],
        removed: vec![],
        configured_addr: None,
        next_id: 1,
    };
    assert!(store.save_transport(&data("alice@example.org", START)).ok().unwrap());
    store
}

fn sync(
    store: &mut TransportStore,
    transports: Vec<TransportData>,
    removed: Vec<RemovedTransportData>,
) -> (bool, Vec<u32>, Option<String>) {
    let outcome = store.sync_transports(&transports, &removed).ok().unwrap();
    (outcome.modified, outcome.deleted_ids, outcome.reelected)
}

fn row<'a>(store: &'a TransportStore, addr: &str) -> Option<&'a TransportRow> {
    store.rows.iter().find(|row| row.addr == addr)
}

fn addrs(store: &TransportStore) -> Vec<String> {
    store.transport_addrs()
}

#[test]
fn test_save_load_login_param() {
    let expected_param = r#"{"addr":"alice@example.org","imap":[{"connection":{"host":"imap.example.com","port":123,"security":"Starttls"},"user":"alice"}],"imap_folder":"Folder","imap_user":"","imap_password":"foo","smtp":[{"connection":{"host":"smtp.example.com","port":456,"security":"Tls"},"user":"alice@example.org"}],"smtp_user":"","smtp_password":"bar","certificate_checks":"Strict","oauth2":false}"#;
    let mut store = TransportStore {
        rows: vec![],
        removed: vec![],
        configured_addr: None,
        next_id: 1,
    };
    let mut transport = data("alice@example.org", START);
    transport.configured_param = expected_param.to_string();
    transport.imap_folder = Some("Folder".to_string());
    assert!(store.save_transport(&transport).ok().unwrap());
    assert_eq!(store.rows[0].configured_param, expected_param);
    assert_eq!(store.configured_addr.as_deref(), Some("alice@example.org"));
    let (id, loaded) = store.load().ok().unwrap().unwrap();
    assert_eq!(id, 1);
    assert_eq!(loaded, expected_param);
}

#[test]
fn test_sync_transports_requests_io_restart() {
    let mut alice = alice();
    let (modified, _, _) = sync(&mut alice, vec![data("alice@otherprovider.com", START)], vec![]);
    assert!(modified);

    // Applying the same data again modifies nothing.
    let (modified, _, _) = sync(&mut alice, vec![data("alice@otherprovider.com", START)], vec![]);
    assert!(!modified);
}

#[test]
fn test_removing_last_transport() {
    let mut alice = alice();
    alice.save_transport(&data("alice@otherprovider.com", START)).ok().unwrap();

    let (modified, ids, reelected) =
        sync(&mut alice, vec![], vec![removal("alice@example.org", START)]);
    assert!(modified);
    assert_eq!(ids, [1]);
    assert_eq!(reelected.as_deref(), Some("alice@otherprovider.com"));
    assert_eq!(alice.rows.len(), 1);
    assert_eq!(alice.configured_addr.as_deref(), Some("alice@otherprovider.com"));

    let (modified, ids, reelected) =
        sync(&mut alice, vec![], vec![removal("alice@otherprovider.com", START)]);
    assert!(!modified);
    assert!(ids.is_empty());
    assert!(reelected.is_none());
    assert_eq!(alice.rows.len(), 1);
    assert_eq!(alice.configured_addr.as_deref(), Some("alice@otherprovider.com"));
}

#[test]
fn test_maybe_update_sending_transport() {
    let mut t = alice();
    t.save_transport(&data("alice@one.com", START)).ok().unwrap();
    assert_eq!(t.maybe_update_sending_transport().ok().unwrap(), None);

    t.rows.retain(|row| row.addr != "alice@example.org");
    assert_eq!(
        t.maybe_update_sending_transport().ok().unwrap().as_deref(),
        Some("alice@one.com")
    );
}

#[test]
fn test_sync_unpublished_transport_removes_it() {
    let mut alice = alice();
    alice.save_transport(&data("alice@otherprovider.com", START)).ok().unwrap();
    let transport_id = row(&alice, "alice@otherprovider.com").unwrap().id;
    let mut unpublished = data("alice@otherprovider.com", START);
    unpublished.is_published = false;

    let (modified, ids, _) = sync(&mut alice, vec![unpublished], vec![]);
    assert!(modified);
    assert_eq!(alice.rows.len(), 1);
    assert_eq!(alice.removed.len(), 1);
    assert_eq!(alice.removed[0].addr, "alice@otherprovider.com");
    assert_eq!(alice.removed[0].timestamp, START);
    assert_eq!(ids, [transport_id]);
}

#[test]
fn test_sync_does_not_resurrect_removed_transport() {
    let mut alice = alice();
    alice.save_transport(&data("alice@otherprovider.com", START)).ok().unwrap();
    alice.delete_transport_row("alice@otherprovider.com", START + 2);
    assert_eq!(alice.rows.len(), 1);

    sync(&mut alice, vec![data("alice@otherprovider.com", START)], vec![]);
    assert_eq!(alice.rows.len(), 1);

    sync(&mut alice, vec![data("alice@otherprovider.com", START + 4)], vec![]);
    assert_eq!(alice.rows.len(), 2);
}

#[test]
fn test_promote_transport_same_second() {
    let mut alice2 = alice();
    sync(&mut alice2, vec![data("alice@otherprovider.com", START)], vec![]);
    let old = row(&alice2, "alice@otherprovider.com").unwrap().add_timestamp;

    // A promotion within the same second bumps the timestamp by one.
    let (modified, _, reelected) =
        sync(&mut alice2, vec![data("alice@otherprovider.com", old + 1)], vec![]);
    assert!(modified);
    assert!(row(&alice2, "alice@otherprovider.com").unwrap().add_timestamp > old);
    assert!(reelected.is_none());
    assert_eq!(alice2.configured_addr.as_deref(), Some("alice@example.org"));
}

#[test]
fn removal_wins_a_tie() {
    let mut alice = alice();
    alice.delete_transport_row("alice@otherprovider.com", START);
    let (modified, _, _) = sync(&mut alice, vec![data("alice@otherprovider.com", START)], vec![]);
    assert!(!modified);
    assert_eq!(alice.rows.len(), 1);
}

#[test]
fn newer_transport_is_not_deleted() {
    let mut alice = alice();
    assert_eq!(alice.delete_transport_row("alice@example.org", START - 1), None);
    assert_eq!(alice.rows.len(), 1);
    assert_eq!(alice.removed[0].timestamp, START - 1);
    // The latest removal is remembered.
    assert_eq!(alice.delete_transport_row("alice@example.org", START - 5), None);
    assert_eq!(alice.removed[0].timestamp, START - 1);
    assert_eq!(alice.delete_transport_row("alice@example.org", START), Some(1));
    assert_eq!(alice.removed.len(), 1);
    assert_eq!(alice.removed[0].timestamp, START);
    assert!(alice.rows.is_empty());
}

#[test]
fn transports_are_listed_newest_first() {
    let mut alice = alice();
    alice.save_transport(&data("b@example.org", START + 5)).ok().unwrap();
    alice.save_transport(&data("c@example.org", START)).ok().unwrap();
    alice.save_transport(&data("d@example.org", START + 5)).ok().unwrap();
    assert_eq!(
        addrs(&alice),
        ["d@example.org", "b@example.org", "c@example.org", "alice@example.org"]
    );
}

#[test]
fn newest_remaining_transport_is_elected() {
    let mut alice = alice();
    alice.save_transport(&data("b@example.org", START + 5)).ok().unwrap();
    alice.save_transport(&data("c@example.org", START + 1)).ok().unwrap();
    let (_, ids, reelected) =
        sync(&mut alice, vec![], vec![removal("alice@example.org", START + 9)]);
    assert_eq!(ids, [1]);
    assert_eq!(reelected.as_deref(), Some("b@example.org"));
}

#[test]
fn saving_replaces_what_differs_or_is_later() {
    let mut alice = alice();
    assert!(!alice.save_transport(&data("alice@example.org", START)).ok().unwrap());
    assert!(!alice.save_transport(&data("alice@example.org", START - 1)).ok().unwrap());
    assert_eq!(alice.rows[0].add_timestamp, START);
    assert!(alice.save_transport(&data("alice@example.org", START + 1)).ok().unwrap());
    assert_eq!(alice.rows[0].add_timestamp, START + 1);

    let mut changed = data("alice@example.org", START - 7);
    changed.configured_param = "other".to_string();
    assert!(alice.save_transport(&changed).ok().unwrap());
    assert_eq!(alice.rows[0].configured_param, "other");
    assert_eq!(alice.rows[0].add_timestamp, START - 7);
    assert_eq!(alice.rows[0].id, 1);
}

#[test]
fn empty_folder_stops_the_synchronization() {
    let mut alice = alice();
    let mut bad = data("bad@example.org", START);
    bad.imap_folder = Some(String::new());
    let transports = vec![data("b@example.org", START), bad, data("c@example.org", START)];
    let error = alice.sync_transports(&transports, &vec![]).err().unwrap();
    assert!(matches!(error, TransportError::EmptyFolder));
    // What was saved before stays.
    assert_eq!(addrs(&alice), ["b@example.org", "alice@example.org"]);
}

#[test]
fn account_without_sending_address_cannot_be_synchronized() {
    let mut store = TransportStore {
        rows: vec![],
        removed: vec![],
        configured_addr: None,
        next_id: 1,
    };
    let error = store
        .sync_transports(&vec![], &vec![removal("x@example.org", 1)])
        .err()
        .unwrap();
    assert!(matches!(error, TransportError::NotConfigured));
    assert_eq!(error.to_string(), "Account is not configured");
    assert!(store.removed.is_empty());
}

#[test]
fn synchronizing_twice_changes_nothing_more() {
    let mut alice = alice();
    let message = || {
        let mut gone = data("gone@example.org", START + 3);
        gone.is_published = false;
        (
            vec![data("b@example.org", START + 1), gone],
            vec![removal("alice@example.org", START + 2)],
        )
    };
    let (transports, removed) = message();
    let (modified, _, _) = sync(&mut alice, transports, removed);
    assert!(modified);
    let before = addrs(&alice);
    let (transports, removed) = message();
    let (modified, ids, reelected) = sync(&mut alice, transports, removed);
    assert!(!modified);
    assert!(ids.is_empty());
    assert!(reelected.is_none());
    assert_eq!(addrs(&alice), before);
}

#[test]
fn loading_needs_a_transport_for_the_sending_address() {
    let mut store = alice();
    store.configured_addr = Some("lost@example.org".to_string());
    let error = store.load().err().unwrap();
    assert_eq!(
        error.to_string(),
        "Self address lost@example.org doesn't have a corresponding transport"
    );
    store.configured_addr = None;
    assert!(store.load().ok().unwrap().is_none());
}

#[test]
fn all_transports_are_loaded_in_order() {
    let mut store = alice();
    store.save_transport(&data("b@example.org", START - 5)).ok().unwrap();
    assert_eq!(
        store.load_all(),
        vec![
            (1, "configured alice@example.org".to_string()),
            (2, "configured b@example.org".to_string()),
        ]
    );
}

#[test]
fn first_transport_is_not_sent_to_other_devices() {
    let mut store = alice();
    store.save_transport(&data("b@example.org", START + 5)).ok().unwrap();
    store.delete_transport_row("gone@example.org", START + 6);
    let sync = store.sync_data();
    assert_eq!(sync.transports.len(), 1);
    assert_eq!(sync.transports[0].configured_param, "configured b@example.org");
    assert_eq!(sync.transports[0].entered_param, "entered b@example.org");
    assert_eq!(sync.transports[0].timestamp, START + 5);
    assert!(sync.transports[0].is_published);
    assert_eq!(sync.removed_transports.len(), 1);
    assert_eq!(sync.removed_transports[0].addr, "gone@example.org");
    assert_eq!(sync.removed_transports[0].timestamp, START + 6);
}

#[test]
fn pseudo_transport_has_an_empty_configuration() {
    let mut store = alice();
    store.add_pseudo_transport("b@example.org", "{}".to_string(), 0);
    let added = row(&store, "b@example.org").unwrap();
    assert_eq!(
        added.configured_param,
        r#"{"addr":"b@example.org","imap":[],"imap_user":"","imap_password":"","smtp":[],"smtp_user":"","smtp_password":"","certificate_checks":"Automatic","oauth2":false}"#
    );
    assert_eq!(added.entered_param, "{}");
    assert_eq!(added.id, 2);
    assert_eq!(added.add_timestamp, 0);

    // A known address is left as it is.
    store.add_pseudo_transport("alice@example.org", "{}".to_string(), 0);
    assert_eq!(store.rows.len(), 2);
    assert_eq!(store.rows[0].configured_param, "configured alice@example.org");
}
