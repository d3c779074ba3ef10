use relaymail::error::TransportError;
use relaymail::transport::{
    prioritize_server_login_params, ConfiguredCertificateChecks, ConfiguredLoginParam,
    ConfiguredLoginParamJson, ConfiguredServerLoginParam, ConnectionCandidate, ConnectionSecurity,
    LegacyConfig, ServerList, Socket,
};

fn server(host: &str, port: u16, security: ConnectionSecurity, user: &str) -> ConfiguredServerLoginParam {
    ConfiguredServerLoginParam {
        connection: ConnectionCandidate { host: host.to_string(), port, security },
        user: user.to_string(),
    }
}

fn example_param() -> ConfiguredLoginParam {
    ConfiguredLoginParam {
        addr: "alice@example.org".to_string(),
        imap: vec![server("imap.example.com", 123, ConnectionSecurity::Starttls, "alice")],
        imap_folder: Some("Folder".to_string()),
        imap_user: "".to_string(),
        imap_password: "foo".to_string(),
        smtp: vec![server("smtp.example.com", 456, ConnectionSecurity::Tls, "alice@example.org")],
        smtp_user: "".to_string(),
        smtp_password: "bar".to_string(),
        certificate_checks: ConfiguredCertificateChecks::Strict,
    }
}

#[test]
fn test_configured_certificate_checks_display() {
    assert_eq!(
        "accept_invalid_certificates".to_string(),
        ConfiguredCertificateChecks::AcceptInvalidCertificates.to_string()
    );
}

#[test]
fn certificate_checks_have_names_and_numbers() {
    let expected = [
        (0, "old_automatic"),
        (1, "strict"),
        (2, "accept_invalid_certificates"),
        (3, "accept_invalid_certificates2"),
        (4, "automatic"),
    ];
    for (number, name) in expected {
        let checks = ConfiguredCertificateChecks::from_i32(number).unwrap();
        assert_eq!(checks.to_string(), name);
    }
    assert!(ConfiguredCertificateChecks::from_i32(5).is_none());
    assert!(ConfiguredCertificateChecks::from_i32(-1).is_none());
    assert!(ConfiguredCertificateChecks::from_i32(999).is_none());
}

#[test]
fn login_param_is_described_without_credentials() {
    let param = example_param();
    let formatted = format!(" {}", param.to_string(Some("example.org")));
    assert!(formatted.contains(" ***@example.org"));
    assert!(formatted.contains(" imap:[imap.example.com:123:starttls]"));
    assert!(formatted.contains(" folder:\"Folder\""));
    assert!(formatted.contains(" smtp:[smtp.example.com:456:tls]"));
    assert!(formatted.contains(" cert_strict"));
    assert_eq!(
        param.to_string(Some("example.org")),
        "***@example.org imap:[imap.example.com:123:starttls] folder:\"Folder\" \
         smtp:[smtp.example.com:456:tls] cert_strict"
    );
    assert!(!formatted.contains("foo"));
    assert!(!formatted.contains("bar"));
    assert!(!formatted.contains("alice"));
}

#[test]
fn address_without_domain_is_shown_as_it_is() {
    let mut param = example_param();
    param.addr = "nodomain".to_string();
    param.imap_folder = None;
    param.imap.push(server("second.example.com", 65535, ConnectionSecurity::Plain, "x"));
    param.smtp.clear();
    param.certificate_checks = ConfiguredCertificateChecks::AcceptInvalidCertificates2;
    assert_eq!(
        param.to_string(None),
        "nodomain imap:[imap.example.com:123:starttls, second.example.com:65535:plain] \
         smtp:[] cert_accept_invalid_certificates2"
    );
}

#[test]
fn folder_name_is_quoted_with_escapes() {
    let mut param = example_param();
    param.imap_folder = Some("a\"b".to_string());
    assert!(param.to_string(None).contains(" folder:\"a\\\"b\""));
    assert!(param.describe(None, Some("X")).contains(" folder:X smtp:["));
}

#[test]
fn stored_param_is_read_back() {
    let json = example_param().into_json();
    assert!(!json.oauth2);
    assert_eq!(ConfiguredLoginParam::from_json(json).ok(), Some(example_param()));
}

#[test]
fn conversion_sets_the_unused_flag_to_false() {
    let json = ConfiguredLoginParamJson::from(example_param());
    assert_eq!(json, example_param().into_json());
    assert_eq!(json.imap_folder.as_deref(), Some("Folder"));
    assert!(!json.oauth2);
}

#[test]
fn empty_folder_name_is_an_error() {
    let mut json = example_param().into_json();
    json.imap_folder = Some("".to_string());
    let error = ConfiguredLoginParam::from_json(json).unwrap_err();
    assert!(matches!(error, TransportError::EmptyFolder));
    assert_eq!(error.to_string(), "Configured watched folder name cannot be empty");
}

#[test]
fn socket_security_is_converted() {
    assert_eq!(ConnectionSecurity::try_from(Socket::Ssl).ok(), Some(ConnectionSecurity::Tls));
    assert_eq!(
        ConnectionSecurity::try_from(Socket::Starttls).ok(),
        Some(ConnectionSecurity::Starttls)
    );
    assert_eq!(ConnectionSecurity::try_from(Socket::Plain).ok(), Some(ConnectionSecurity::Plain));
    let error = ConnectionSecurity::try_from(Socket::Automatic).unwrap_err();
    assert_eq!(error.to_string(), "Socket security is not configured");
}

#[test]
fn strict_tls_follows_the_checks() {
    let cases = [
        (ConfiguredCertificateChecks::OldAutomatic, false, false, false),
        (ConfiguredCertificateChecks::OldAutomatic, true, false, true),
        (ConfiguredCertificateChecks::OldAutomatic, true, true, false),
        (ConfiguredCertificateChecks::Automatic, false, false, true),
        (ConfiguredCertificateChecks::Automatic, true, true, false),
        (ConfiguredCertificateChecks::Strict, false, true, true),
        (ConfiguredCertificateChecks::AcceptInvalidCertificates, true, false, false),
        (ConfiguredCertificateChecks::AcceptInvalidCertificates2, true, false, false),
    ];
    for (checks, proxy, disabled, expected) in cases {
        let mut param = example_param();
        param.certificate_checks = checks;
        assert_eq!(param.strict_tls(proxy, disabled), expected);
    }
}

#[test]
fn servers_are_tried_in_the_order_of_the_last_connection() {
    let params: Vec<ConfiguredServerLoginParam> = ["a", "b", "c", "d", "e"]
        .iter()
        .map(|host| server(host, 1, ConnectionSecurity::Tls, "u"))
        .collect();
    let stamps = vec![None, Some(5), Some(9), None, Some(5)];
    let hosts: Vec<String> = prioritize_server_login_params(&params, &stamps)
        .into_iter()
        .map(|param| param.connection.host)
        .collect();
    assert_eq!(hosts, ["c", "b", "e", "a", "d"]);
    assert!(prioritize_server_login_params(&vec![], &vec![]).is_empty());
}

fn legacy() -> LegacyConfig {
    LegacyConfig {
        configured: true,
        addr: Some("  alice@example.org\t".to_string()),
        certificate_checks: Some(1),
        send_pw: Some("send".to_string()),
        mail_pw: Some("mail".to_string()),
        mail_user: Some("muser".to_string()),
        send_user: Some("suser".to_string()),
        imap_servers: ServerList::Missing,
        smtp_servers: ServerList::Missing,
        mail_server: Some("imap.example.org".to_string()),
        mail_port: Some(993),
        mail_security: Some(Socket::Ssl),
        send_server: Some("smtp.example.org".to_string()),
        send_port: None,
        send_security: Some(Socket::Starttls),
    }
}

#[test]
fn legacy_single_servers_are_loaded() {
    let param = ConfiguredLoginParam::load_legacy(legacy()).ok().unwrap().unwrap();
    assert_eq!(
        param,
        ConfiguredLoginParam {
            addr: "alice@example.org".to_string(),
            imap: vec![server("imap.example.org", 993, ConnectionSecurity::Tls, "muser")],
            imap_folder: None,
            imap_user: "muser".to_string(),
            imap_password: "mail".to_string(),
            smtp: vec![server("smtp.example.org", 0, ConnectionSecurity::Starttls, "suser")],
            smtp_user: "suser".to_string(),
            smtp_password: "send".to_string(),
            certificate_checks: ConfiguredCertificateChecks::Strict,
        }
    );
}

#[test]
fn legacy_server_lists_come_first() {
    let mut config = legacy();
    config.imap_servers =
        ServerList::Servers(vec![server("i", 1, ConnectionSecurity::Plain, "x")]);
    config.smtp_servers = ServerList::Servers(vec![]);
    config.certificate_checks = None;
    config.send_server = None;
    config.mail_user = None;
    let param = ConfiguredLoginParam::load_legacy(config).ok().unwrap().unwrap();
    assert_eq!(param.imap, vec![server("i", 1, ConnectionSecurity::Plain, "x")]);
    assert!(param.smtp.is_empty());
    assert_eq!(param.imap_user, "");
    assert_eq!(param.certificate_checks, ConfiguredCertificateChecks::OldAutomatic);
}

fn legacy_error(config: LegacyConfig) -> String {
    ConfiguredLoginParam::load_legacy(config).err().unwrap().to_string()
}

#[test]
fn legacy_problems_are_reported_in_order() {
    let mut config = legacy();
    config.configured = false;
    assert!(ConfiguredLoginParam::load_legacy(config).ok().unwrap().is_none());

    let mut config = legacy();
    config.certificate_checks = Some(999);
    config.send_pw = None;
    assert_eq!(legacy_error(config), "Invalid configured_imap_certificate_checks value");

    let mut config = legacy();
    config.send_pw = None;
    config.mail_pw = None;
    assert_eq!(legacy_error(config), "SMTP password is not configured");

    let mut config = legacy();
    config.mail_pw = None;
    assert_eq!(legacy_error(config), "IMAP password is not configured");

    let mut config = legacy();
    config.imap_servers = ServerList::Unreadable;
    config.smtp_servers = ServerList::Unreadable;
    assert_eq!(legacy_error(config), "Failed to parse configured IMAP servers");

    let mut config = legacy();
    config.imap_servers = ServerList::Servers(vec![]);
    config.smtp_servers = ServerList::Unreadable;
    assert_eq!(legacy_error(config), "Failed to parse configured SMTP servers");

    let mut config = legacy();
    config.imap_servers = ServerList::Unreadable;
    config.send_server = None;
    config.mail_security = None;
    assert_eq!(legacy_error(config), "SMTP server is not configured");

    let mut config = legacy();
    config.mail_security = None;
    assert_eq!(legacy_error(config), "Socket security is not configured");

    let mut config = legacy();
    config.send_security = Some(Socket::Automatic);
    assert_eq!(legacy_error(config), "Socket security is not configured");
}
