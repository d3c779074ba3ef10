use relaymail::connect_job::{
    ConnectAction, ConnectEvent, ConnectJob, ServerAction, ServerEvent, ServerJob, TransportLogin,
};
use relaymail::smtp::{Smtp, SmtpError};
use relaymail::transport::{
    ConfiguredCertificateChecks, ConfiguredLoginParam, ConfiguredServerLoginParam,
    ConnectionCandidate, ConnectionSecurity,
};

const SECOND: u64 = 1_000_000_000;

fn server(host: &str) -> ConfiguredServerLoginParam {
    ConfiguredServerLoginParam {
        connection: ConnectionCandidate {
            host: host.to_string(),
            port: 465,
            security: ConnectionSecurity::Tls,
        },
        user: format!("user of {host}"),
    }
}

fn transport(id: u32, addr: &str, hosts: &[&str]) -> TransportLogin {
    TransportLogin {
        id,
        param: ConfiguredLoginParam {
            addr: addr.to_string(),
            imap: vec![],
            imap_user: String::new(),
            imap_password: String::new(),
            imap_folder: None,
            smtp: hosts.iter().map(|host| server(host)).collect(),
            smtp_user: String::new(),
            smtp_password: format!("secret {id}"),
            certificate_checks: ConfiguredCertificateChecks::Automatic,
        },
    }
}

fn tried(action: ServerAction) -> String {
    match action {
        ServerAction::Try(server) => server.connection.host,
        _ => panic!("expected a server to be tried"),
    }
}

/// Begins with three servers, of which the last one was connected to last.
fn begin(smtp: &mut Smtp) -> (ServerJob, ServerAction) {
    let params = vec![server("a"), server("b"), server("c")];
    let (job, action) = smtp.connect(&params, "alice@example.org");
    assert!(matches!(action, ServerAction::GetStamps(list) if list == params));
    // The address is known before the servers are looked up.
    assert_eq!(smtp.from.as_deref(), Some("alice@example.org"));
    job.step(smtp, ServerEvent::Stamps(vec![None, Some(1), Some(2)]))
}

#[test]
fn servers_are_tried_one_after_the_other() {
    let smtp = &mut Smtp::new();
    let (job, action) = begin(smtp);
    assert_eq!(tried(action), "c");
    let (job, action) = job.step(smtp, ServerEvent::Failed("first".to_string()));
    assert_eq!(tried(action), "b");
    let (job, action) = job.step(smtp, ServerEvent::Failed("second".to_string()));
    assert_eq!(tried(action), "a");
    let (_, action) = job.step(smtp, ServerEvent::Failed("third".to_string()));
    match action {
        ServerAction::Finish(Err(error)) => {
            assert_eq!(error, SmtpError::Unreachable("first".to_string()))
        }
        _ => panic!("expected the end"),
    }
    assert!(!smtp.is_connected());
}

#[test]
fn successful_login_is_reported() {
    let smtp = &mut Smtp::new();
    let (job, _) = begin(smtp);
    let (job, _) = job.step(smtp, ServerEvent::Failed("first".to_string()));
    let (job, action) = job.step(smtp, ServerEvent::LoggedIn { now: 7 });
    assert!(matches!(action, ServerAction::Report(text) if text == "SMTP-LOGIN as user of b ok"));
    assert!(smtp.is_connected());
    assert_eq!(smtp.last_success, Some(7));
    let (_, action) = job.step(smtp, ServerEvent::Reported);
    assert!(matches!(action, ServerAction::Finish(Ok(()))));
}

#[test]
fn no_server_is_an_error() {
    let smtp = &mut Smtp::new();
    let (job, _) = smtp.connect(&vec![], "alice@example.org");
    let (_, action) = job.step(smtp, ServerEvent::Stamps(vec![]));
    assert!(matches!(action, ServerAction::Finish(Err(SmtpError::NoCandidates))));
}

#[test]
fn invalid_address_is_an_error() {
    let smtp = &mut Smtp::new();
    let (_, action) = smtp.connect(&vec![server("a")], "ali\"ce>@example.org");
    match action {
        ServerAction::Finish(Err(error)) => {
            assert_eq!(error.to_string(), "Invalid address \"ali\\\"ce>@example.org\"")
        }
        _ => panic!("expected an error"),
    }
    assert_eq!(smtp.from, None);
}

#[test]
fn connection_is_not_made_twice() {
    let smtp = &mut Smtp::new();
    smtp.logged_in("alice", 0);
    let (_, action) = smtp.connect(&vec![server("a")], "in valid");
    assert!(matches!(action, ServerAction::Finish(Ok(()))));
    assert_eq!(smtp.from, None);
}

#[test]
fn stale_connection_is_closed() {
    let mut smtp = Smtp::new();
    smtp.logged_in("alice", 0);
    smtp.connected_to(3);
    let start = smtp.connect_configured(60 * SECOND);
    assert!(!start.quit);
    assert!(matches!(start.action, ConnectAction::Finish(Ok(()))));
    assert!(smtp.is_connected());
    let start = smtp.connect_configured(61 * SECOND);
    assert!(start.quit);
    assert!(matches!(start.action, ConnectAction::GetTransports));
    assert!(!smtp.is_connected());
    assert_eq!(smtp.last_success, None);
    assert_eq!(smtp.transport_id, Some(3));
    // There is nothing left to close.
    let start = smtp.connect_configured(62 * SECOND);
    assert!(!start.quit);
    assert!(matches!(start.action, ConnectAction::GetTransports));
    assert!(!smtp.disconnect());
}

fn override_asked(action: ConnectAction) -> String {
    match action {
        ConnectAction::GetOverride { addr } => addr,
        _ => panic!("expected a transport to be taken up"),
    }
}

/// Takes a transport up, and answers with as many timestamps as it has servers.
fn take_up(
    smtp: &mut Smtp,
    job: ConnectJob,
    disable_strict_tls: bool,
) -> (ConnectJob, ConnectAction) {
    let (job, action) = job.step(smtp, ConnectEvent::Override { disable_strict_tls });
    match action {
        ConnectAction::GetStamps(list) => {
            let stamps = vec![None; list.len()];
            job.step(smtp, ConnectEvent::Server(ServerEvent::Stamps(stamps)))
        }
        _ => (job, action),
    }
}

fn fail(smtp: &mut Smtp, job: ConnectJob) -> (ConnectJob, ConnectAction) {
    job.step(smtp, ConnectEvent::Server(ServerEvent::Failed("down".to_string())))
}

fn loaded(smtp: &mut Smtp, through_proxy: bool) -> (ConnectJob, ConnectAction) {
    let start = smtp.connect_configured(0);
    assert!(matches!(start.action, ConnectAction::GetTransports));
    let transports = vec![
        transport(1, "alice@one.org", &["one"]),
        transport(2, "not valid", &["two"]),
        transport(5, "alice@five.org", &["five", "cinq"]),
    ];
    start.job.step(smtp, ConnectEvent::Transports { transports, through_proxy })
}

#[test]
fn newest_transport_is_tried_first() {
    let smtp = &mut Smtp::new();
    let (job, action) = loaded(smtp, false);
    assert_eq!(override_asked(action), "alice@five.org");
    let (job, action) = take_up(smtp, job, true);
    match action {
        ConnectAction::Try { server, password, strict_tls } => {
            assert_eq!(server.connection.host, "five");
            assert_eq!(password, "secret 5");
            assert!(!strict_tls);
        }
        _ => panic!("expected a server to be tried"),
    }
    let (job, action) = fail(smtp, job);
    assert!(matches!(action, ConnectAction::Try { server, .. } if server.connection.host == "cinq"));
    let (job, action) = fail(smtp, job);
    // The second transport has an invalid address.
    assert_eq!(override_asked(action), "not valid");
    let (job, action) = take_up(smtp, job, false);
    assert_eq!(override_asked(action), "alice@one.org");
    let (job, action) = take_up(smtp, job, false);
    assert!(matches!(action, ConnectAction::Try { strict_tls: true, .. }));
    let (_, action) = fail(smtp, job);
    assert!(matches!(action, ConnectAction::Finish(Err(SmtpError::NoServer))));
    assert!(!smtp.is_connected());
    assert_eq!(smtp.transport_id, None);
}

#[test]
fn connected_transport_is_remembered() {
    let smtp = &mut Smtp::new();
    let (job, _) = loaded(smtp, false);
    let (job, _) = take_up(smtp, job, false);
    let (job, _) = fail(smtp, job);
    let (job, action) = job.step(smtp, ConnectEvent::Server(ServerEvent::LoggedIn { now: 9 }));
    assert!(
        matches!(action, ConnectAction::Report(text) if text == "SMTP-LOGIN as user of cinq ok")
    );
    let (_, action) = job.step(smtp, ConnectEvent::Server(ServerEvent::Reported));
    assert!(matches!(action, ConnectAction::Finish(Ok(()))));
    assert!(smtp.is_connected());
    assert_eq!(smtp.transport_id, Some(5));
    assert_eq!(smtp.from.as_deref(), Some("alice@five.org"));
    assert_eq!(smtp.last_success, Some(9));
}

#[test]
fn account_without_transports_cannot_connect() {
    let smtp = &mut Smtp::new();
    let start = smtp.connect_configured(0);
    let event = ConnectEvent::Transports { transports: vec![], through_proxy: false };
    let (_, action) = start.job.step(smtp, event);
    assert!(matches!(action, ConnectAction::Finish(Err(SmtpError::NoServer))));
}
