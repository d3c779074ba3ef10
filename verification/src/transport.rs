//! Login parameters of a transport, a single IMAP and SMTP configuration.

use vstd::prelude::*;

use crate::error::TransportError;
use crate::order;
use crate::text;

verus! {

/// Socket security as it can be chosen in the settings.
#[derive(Clone, Copy, Debug, PartialEq, Eq, Structural)]
pub enum Socket {
    /// Left to automatic selection.
    Automatic,
    /// Implicit TLS.
    Ssl,
    /// STARTTLS.
    Starttls,
    /// Plaintext.
    Plain,
}

/// Socket security of a connection.
#[derive(Clone, Copy, Debug, PartialEq, Eq, Structural)]
pub enum ConnectionSecurity {
    /// Implicit TLS.
    Tls,
    /// STARTTLS.
    Starttls,
    /// Plaintext.
    Plain,
}

impl ConnectionSecurity {
    /// The name of the kind of security.
    pub open spec fn name(self) -> Seq<char> {
        match self {
            ConnectionSecurity::Tls => "tls"@,
            ConnectionSecurity::Starttls => "starttls"@,
            ConnectionSecurity::Plain => "plain"@,
        }
    }

    /// The name of the kind of security.
    pub fn to_string(&self) -> (r: String)
        ensures
            r@ == self.name(),
    {
        match self {
            ConnectionSecurity::Tls => "tls".to_owned(),
            ConnectionSecurity::Starttls => "starttls".to_owned(),
            ConnectionSecurity::Plain => "plain".to_owned(),
        }
    }

    /// The security that a setting stands for, if it was chosen.
    pub open spec fn of_socket(socket: Socket) -> Option<ConnectionSecurity> {
        match socket {
            Socket::Automatic => None,
            Socket::Ssl => Some(ConnectionSecurity::Tls),
            Socket::Starttls => Some(ConnectionSecurity::Starttls),
            Socket::Plain => Some(ConnectionSecurity::Plain),
        }
    }

    /// Converts a setting; automatic selection is an error.
    pub fn try_from(socket: Socket) -> (r: Result<ConnectionSecurity, TransportError>)
        ensures
            match r {
                Ok(security) => Self::of_socket(socket) == Some(security),
                Err(e) => Self::of_socket(socket) is None && e is SocketNotConfigured,
            },
    {
        match socket {
            Socket::Automatic => Err(TransportError::SocketNotConfigured),
            Socket::Ssl => Ok(ConnectionSecurity::Tls),
            Socket::Starttls => Ok(ConnectionSecurity::Starttls),
            Socket::Plain => Ok(ConnectionSecurity::Plain),
        }
    }
}

/// How TLS certificates are checked.
#[derive(Clone, Copy, Debug, PartialEq, Eq, Structural)]
pub enum ConfiguredCertificateChecks {
    /// Accept invalid certificates. Only found in old configurations.
    OldAutomatic,
    /// Ensure that the certificate is valid for the server hostname.
    Strict,
    /// Accept certificates that are expired, self-signed or otherwise not valid.
    AcceptInvalidCertificates,
    /// Another value for `AcceptInvalidCertificates`.
    AcceptInvalidCertificates2,
    /// Apply strict checks unless an override for the domain disables them.
    Automatic,
}

impl ConfiguredCertificateChecks {
    /// The kind of checks that is stored as the number `value`.
    pub open spec fn of_number(value: int) -> Option<ConfiguredCertificateChecks> {
        if value == 0 {
            Some(ConfiguredCertificateChecks::OldAutomatic)
        } else if value == 1 {
            Some(ConfiguredCertificateChecks::Strict)
        } else if value == 2 {
            Some(ConfiguredCertificateChecks::AcceptInvalidCertificates)
        } else if value == 3 {
            Some(ConfiguredCertificateChecks::AcceptInvalidCertificates2)
        } else if value == 4 {
            Some(ConfiguredCertificateChecks::Automatic)
        } else {
            None
        }
    }

    /// Reads the kind of checks from the number that it is stored as.
    pub fn from_i32(value: i32) -> (r: Option<ConfiguredCertificateChecks>)
        ensures
            r == Self::of_number(value as int),
    {
        match value {
            0 => Some(ConfiguredCertificateChecks::OldAutomatic),
            1 => Some(ConfiguredCertificateChecks::Strict),
            2 => Some(ConfiguredCertificateChecks::AcceptInvalidCertificates),
            3 => Some(ConfiguredCertificateChecks::AcceptInvalidCertificates2),
            4 => Some(ConfiguredCertificateChecks::Automatic),
            _ => None,
        }
    }

    /// The name of the kind of checks.
    pub open spec fn name(self) -> Seq<char> {
        match self {
            ConfiguredCertificateChecks::OldAutomatic => "old_automatic"@,
            ConfiguredCertificateChecks::Strict => "strict"@,
            ConfiguredCertificateChecks::AcceptInvalidCertificates =>
                "accept_invalid_certificates"@,
            ConfiguredCertificateChecks::AcceptInvalidCertificates2 =>
                "accept_invalid_certificates2"@,
            ConfiguredCertificateChecks::Automatic => "automatic"@,
        }
    }

    /// The name of the kind of checks.
    pub fn to_string(&self) -> (r: String)
        ensures
            r@ == self.name(),
    {
        match self {
            ConfiguredCertificateChecks::OldAutomatic => "old_automatic".to_owned(),
            ConfiguredCertificateChecks::Strict => "strict".to_owned(),
            ConfiguredCertificateChecks::AcceptInvalidCertificates => {
                "accept_invalid_certificates".to_owned()
            },
            ConfiguredCertificateChecks::AcceptInvalidCertificates2 => {
                "accept_invalid_certificates2".to_owned()
            },
            ConfiguredCertificateChecks::Automatic => "automatic".to_owned(),
        }
    }
}

/// A server to connect to.
#[derive(Debug, PartialEq, Eq)]
pub struct ConnectionCandidate {
    /// Hostname or IP address.
    pub host: String,
    /// Port.
    pub port: u16,
    /// Transport layer security.
    pub security: ConnectionSecurity,
}

impl Clone for ConnectionCandidate {
    fn clone(&self) -> (r: ConnectionCandidate)
        ensures
            r == *self,
    {
        ConnectionCandidate { host: self.host.clone(), port: self.port, security: self.security }
    }
}

impl ConnectionCandidate {
    /// Host, port and security with colons between them.
    pub open spec fn description(&self) -> Seq<char> {
        self.host@ + ":"@ + text::decimal(self.port as nat) + ":"@ + self.security.name()
    }

    /// Host, port and security with colons between them.
    pub fn to_string(&self) -> (r: String)
        ensures
            r@ == self.description(),
    {
        let mut r = self.host.clone();
        r.append(":");
        r.append(text::decimal_text(self.port as u64).as_str());
        r.append(":");
        r.append(self.security.to_string().as_str());
        r
    }
}

/// A server with the user to log in as.
#[derive(Debug, PartialEq, Eq)]
pub struct ConfiguredServerLoginParam {
    /// The server.
    pub connection: ConnectionCandidate,
    /// The username.
    pub user: String,
}

impl Clone for ConfiguredServerLoginParam {
    fn clone(&self) -> (r: ConfiguredServerLoginParam)
        ensures
            r == *self,
    {
        ConfiguredServerLoginParam { connection: self.connection.clone(), user: self.user.clone() }
    }
}

impl ConfiguredServerLoginParam {
    /// The server, without the username, which must not end up in logs.
    pub fn to_string(&self) -> (r: String)
        ensures
            r@ == self.connection.description(),
    {
        self.connection.to_string()
    }
}

/// The servers, those first to which a connection was made last; `stamps` says for each when
/// that was. Servers that were never connected to come last.
pub open spec fn prioritized(
    params: Seq<ConfiguredServerLoginParam>,
    stamps: Seq<Option<i64>>,
) -> Seq<ConfiguredServerLoginParam> {
    order::latest_first(stamps).map_values(|i: int| params[i])
}

/// Orders servers by when a connection was made to each of them last, which `stamps` says.
pub fn prioritize_server_login_params(
    params: &Vec<ConfiguredServerLoginParam>,
    stamps: &Vec<Option<i64>>,
) -> (r: Vec<ConfiguredServerLoginParam>)
    requires
        stamps@.len() == params@.len(),
    ensures
        r@ == prioritized(params@, stamps@),
{
    let positions = order::order_latest_first(stamps);
    proof {
        order::lemma_latest_first(stamps@);
    }
    let ghost order = order::latest_first(stamps@);
    let mut r: Vec<ConfiguredServerLoginParam> = Vec::new();
    for k in 0..positions.len()
        invariant
            order::ints(positions@) == order,
            forall|j: int| 0 <= j < order.len() ==> 0 <= #[trigger] order[j] < params@.len(),
            r@.len() == k,
            forall|j: int| 0 <= j < k ==> #[trigger] r@[j] == params@[order[j]],
    {
        assert(order[k as int] == positions@[k as int]);
        r.push(params[positions[k]].clone());
    }
    assert(r@ =~= prioritized(params@, stamps@));
    r
}

/// Prioritizing servers neither adds nor drops one.
pub proof fn law_prioritizing_keeps_the_servers(
    params: Seq<ConfiguredServerLoginParam>,
    stamps: Seq<Option<i64>>,
)
    requires
        stamps.len() == params.len(),
    ensures
        prioritized(params, stamps).to_multiset() == params.to_multiset(),
{
    let f = |i: int| params[i];
    let all = order::positions(stamps.len());
    order::lemma_stamp_order_total(stamps);
    all.lemma_sort_by_ensures(order::stamp_order(stamps));
    order::lemma_same_items_mapped(order::latest_first(stamps), all, f);
    assert(all.map_values(f) =~= params);
}

/// Login parameters that are saved after a successful configuration.
#[derive(Debug, PartialEq, Eq)]
pub struct ConfiguredLoginParam {
    /// Address that mail is sent from.
    pub addr: String,
    /// IMAP servers to try.
    pub imap: Vec<ConfiguredServerLoginParam>,
    /// Custom IMAP user, if not empty.
    pub imap_user: String,
    /// IMAP password.
    pub imap_password: String,
    /// Folder to watch, not empty. `None` stands for the inbox.
    pub imap_folder: Option<String>,
    /// SMTP servers to try.
    pub smtp: Vec<ConfiguredServerLoginParam>,
    /// Custom SMTP user, if not empty.
    pub smtp_user: String,
    /// SMTP password.
    pub smtp_password: String,
    /// How TLS certificates are checked.
    pub certificate_checks: ConfiguredCertificateChecks,
}

/// The fields of the stored form of `ConfiguredLoginParam`.
#[derive(Debug, PartialEq, Eq)]
pub struct ConfiguredLoginParamJson {
    /// Address that mail is sent from.
    pub addr: String,
    /// IMAP servers to try.
    pub imap: Vec<ConfiguredServerLoginParam>,
    /// Folder to watch.
    pub imap_folder: Option<String>,
    /// Custom IMAP user.
    pub imap_user: String,
    /// IMAP password.
    pub imap_password: String,
    /// SMTP servers to try.
    pub smtp: Vec<ConfiguredServerLoginParam>,
    /// Custom SMTP user.
    pub smtp_user: String,
    /// SMTP password.
    pub smtp_password: String,
    /// How TLS certificates are checked.
    pub certificate_checks: ConfiguredCertificateChecks,
    /// No longer used, always false.
    pub oauth2: bool,
}

/// The stored form of login parameters.
pub open spec fn stored_param(p: ConfiguredLoginParam) -> ConfiguredLoginParamJson {
    ConfiguredLoginParamJson {
        addr: p.addr,
        imap: p.imap,
        imap_folder: p.imap_folder,
        imap_user: p.imap_user,
        imap_password: p.imap_password,
        smtp: p.smtp,
        smtp_user: p.smtp_user,
        smtp_password: p.smtp_password,
        certificate_checks: p.certificate_checks,
        oauth2: false,
    }
}

/// The login parameters of a stored form.
pub open spec fn loaded_param(json: ConfiguredLoginParamJson) -> ConfiguredLoginParam {
    ConfiguredLoginParam {
        addr: json.addr,
        imap: json.imap,
        imap_folder: json.imap_folder,
        imap_user: json.imap_user,
        imap_password: json.imap_password,
        smtp: json.smtp,
        smtp_user: json.smtp_user,
        smtp_password: json.smtp_password,
        certificate_checks: json.certificate_checks,
    }
}

/// Whether a folder name, where there is one, is not empty.
pub open spec fn folder_ok(folder: Option<String>) -> bool {
    folder matches Some(name) ==> name@.len() > 0
}

impl From<ConfiguredLoginParam> for ConfiguredLoginParamJson {
    fn from(param: ConfiguredLoginParam) -> (r: ConfiguredLoginParamJson) {
        ConfiguredLoginParamJson {
            addr: param.addr,
            imap: param.imap,
            imap_folder: param.imap_folder,
            imap_user: param.imap_user,
            imap_password: param.imap_password,
            smtp: param.smtp,
            smtp_user: param.smtp_user,
            smtp_password: param.smtp_password,
            certificate_checks: param.certificate_checks,
            oauth2: false,
        }
    }
}

impl vstd::std_specs::convert::FromSpecImpl<ConfiguredLoginParam> for ConfiguredLoginParamJson {
    open spec fn obeys_from_spec() -> bool {
        true
    }

    open spec fn from_spec(param: ConfiguredLoginParam) -> ConfiguredLoginParamJson {
        stored_param(param)
    }
}

/// The descriptions of some servers with commas between them.
pub open spec fn server_list(params: Seq<ConfiguredServerLoginParam>) -> Seq<char> {
    text::joined(
        params.map_values(|p: ConfiguredServerLoginParam| p.connection.description()),
        ", "@,
    )
}

fn server_list_text(params: &Vec<ConfiguredServerLoginParam>) -> (r: String)
    ensures
        r@ == server_list(params@),
{
    let mut parts: Vec<String> = Vec::new();
    for i in 0..params.len()
        invariant
            parts@.len() == i,
            forall|j: int|
                0 <= j < i ==> (#[trigger] parts@[j])@ == params@[j].connection.description(),
    {
        parts.push(params[i].to_string());
    }
    assert(text::texts(parts@) =~= params@.map_values(
        |p: ConfiguredServerLoginParam| p.connection.description(),
    ));
    text::join(&parts, ", ")
}

impl ConfiguredLoginParam {
    /// The text that describes the parameters in logs. Of the address only `domain` is shown,
    /// if it has one; users and passwords are not shown. `folder` is the name of the folder in
    /// quotes.
    pub open spec fn description(
        &self,
        domain: Option<Seq<char>>,
        folder: Option<Seq<char>>,
    ) -> Seq<char> {
        (match domain {
            Some(d) => "***@"@ + d,
            None => self.addr@,
        }) + " imap:["@ + server_list(self.imap@) + "]"@ + (match folder {
            Some(name) => " folder:"@ + name,
            None => Seq::empty(),
        }) + " smtp:["@ + server_list(self.smtp@) + "] cert_"@ + self.certificate_checks.name()
    }

    /// The name of the folder in quotes.
    pub open spec fn quoted_folder(&self) -> Option<Seq<char>> {
        match self.imap_folder {
            Some(folder) => Some(text::quoted(folder@)),
            None => None,
        }
    }

    /// Describes the parameters; `folder` is the name of the folder in quotes.
    pub fn describe(&self, domain: Option<&str>, folder: Option<&str>) -> (r: String)
        ensures
            r@ == self.description(
                match domain {
                    Some(d) => Some(d@),
                    None => None,
                },
                match folder {
                    Some(name) => Some(name@),
                    None => None,
                },
            ),
    {
        let mut r = match domain {
            Some(d) => {
                let mut start = "***@".to_owned();
                start.append(d);
                start
            },
            None => self.addr.clone(),
        };
        r.append(" imap:[");
        r.append(server_list_text(&self.imap).as_str());
        r.append("]");
        let mut folder_part = String::new();
        if let Some(name) = folder {
            folder_part = " folder:".to_owned();
            folder_part.append(name);
        }
        r.append(folder_part.as_str());
        r.append(" smtp:[");
        r.append(server_list_text(&self.smtp).as_str());
        r.append("] cert_");
        r.append(self.certificate_checks.to_string().as_str());
        r
    }

    /// The text that describes the parameters in logs; `domain` is the domain of the address,
    /// `None` if the address cannot be parsed.
    pub fn to_string(&self, domain: Option<&str>) -> (r: String)
        ensures
            r@ == self.description(
                match domain {
                    Some(d) => Some(d@),
                    None => None,
                },
                self.quoted_folder(),
            ),
    {
        match &self.imap_folder {
            Some(folder) => {
                let quoted = text::quoted_text(folder.as_str());
                self.describe(domain, Some(quoted.as_str()))
            },
            None => self.describe(domain, None),
        }
    }

    /// Takes over the fields of the stored form; an empty folder name is an error.
    pub fn from_json(json: ConfiguredLoginParamJson) -> (r: Result<
        ConfiguredLoginParam,
        TransportError,
    >)
        ensures
            match r {
                Ok(param) => folder_ok(json.imap_folder) && param == loaded_param(json),
                Err(e) => !folder_ok(json.imap_folder) && e is EmptyFolder,
            },
    {
        if let Some(folder) = &json.imap_folder {
            if folder.as_str().is_empty() {
                return Err(TransportError::EmptyFolder);
            }
        }
        Ok(
            ConfiguredLoginParam {
                addr: json.addr,
                imap: json.imap,
                imap_folder: json.imap_folder,
                imap_user: json.imap_user,
                imap_password: json.imap_password,
                smtp: json.smtp,
                smtp_user: json.smtp_user,
                smtp_password: json.smtp_password,
                certificate_checks: json.certificate_checks,
            },
        )
    }

    /// The fields of the stored form.
    pub fn into_json(self) -> (r: ConfiguredLoginParamJson)
        ensures
            r == stored_param(self),
    {
        ConfiguredLoginParamJson::from(self)
    }

    /// Whether certificates are checked strictly. `disable_strict_tls` is the override for the
    /// domain of the address.
    pub open spec fn checks_strictly(
        &self,
        connected_through_proxy: bool,
        disable_strict_tls: bool,
    ) -> bool {
        match self.certificate_checks {
            ConfiguredCertificateChecks::OldAutomatic => connected_through_proxy
                && !disable_strict_tls,
            ConfiguredCertificateChecks::Automatic => !disable_strict_tls,
            ConfiguredCertificateChecks::Strict => true,
            ConfiguredCertificateChecks::AcceptInvalidCertificates => false,
            ConfiguredCertificateChecks::AcceptInvalidCertificates2 => false,
        }
    }

    /// Whether certificates are checked strictly. `disable_strict_tls` is the override for the
    /// domain of the address.
    pub fn strict_tls(&self, connected_through_proxy: bool, disable_strict_tls: bool) -> (r: bool)
        ensures
            r == self.checks_strictly(connected_through_proxy, disable_strict_tls),
    {
        match self.certificate_checks {
            ConfiguredCertificateChecks::OldAutomatic => if disable_strict_tls {
                false
            } else {
                connected_through_proxy
            },
            ConfiguredCertificateChecks::Automatic => !disable_strict_tls,
            ConfiguredCertificateChecks::Strict => true,
            ConfiguredCertificateChecks::AcceptInvalidCertificates => false,
            ConfiguredCertificateChecks::AcceptInvalidCertificates2 => false,
        }
    }
}

/// A stored list of servers.
pub enum ServerList {
    /// Nothing is stored.
    Missing,
    /// What is stored is not a list of servers.
    Unreadable,
    /// The servers.
    Servers(Vec<ConfiguredServerLoginParam>),
}

/// The settings that held the login parameters before there was a table of transports.
pub struct LegacyConfig {
    /// Whether the account is configured.
    pub configured: bool,
    pub addr: Option<String>,
    /// Kind of certificate checks, as a number.
    pub certificate_checks: Option<i32>,
    pub send_pw: Option<String>,
    pub mail_pw: Option<String>,
    pub mail_user: Option<String>,
    pub send_user: Option<String>,
    pub imap_servers: ServerList,
    pub smtp_servers: ServerList,
    /// The single IMAP server of an even older configuration.
    pub mail_server: Option<String>,
    pub mail_port: Option<u16>,
    pub mail_security: Option<Socket>,
    /// The single SMTP server of an even older configuration.
    pub send_server: Option<String>,
    pub send_port: Option<u16>,
    pub send_security: Option<Socket>,
}

/// The text of a setting, empty if it is not set.
pub open spec fn setting(s: Option<String>) -> Seq<char> {
    match s {
        Some(t) => t@,
        None => Seq::empty(),
    }
}

/// The security of a setting; one that is not set stands for automatic selection.
pub open spec fn security_setting(s: Option<Socket>) -> Option<ConnectionSecurity> {
    ConnectionSecurity::of_socket(
        match s {
            Some(socket) => socket,
            None => Socket::Automatic,
        },
    )
}

/// Whether `list` is a single server with the given data.
pub open spec fn single_server(
    list: Seq<ConfiguredServerLoginParam>,
    server: Option<String>,
    port: Option<u16>,
    security: Option<Socket>,
    user: Option<String>,
) -> bool {
    &&& list.len() == 1
    &&& list[0].connection.host@ == setting(server)
    &&& list[0].connection.port == match port {
        Some(number) => number,
        None => 0,
    }
    &&& Some(list[0].connection.security) == security_setting(security)
    &&& list[0].user@ == setting(user)
}

impl LegacyConfig {
    /// The kind of certificate checks, `None` if the number is unknown. Accounts without a
    /// number did not check certificates.
    pub open spec fn checks(&self) -> Option<ConfiguredCertificateChecks> {
        match self.certificate_checks {
            Some(number) => ConfiguredCertificateChecks::of_number(number as int),
            None => Some(ConfiguredCertificateChecks::OldAutomatic),
        }
    }

    /// Whether both lists of servers are stored.
    pub open spec fn has_lists(&self) -> bool {
        !(self.imap_servers is Missing) && !(self.smtp_servers is Missing)
    }

    /// The first thing that is wrong with the settings.
    pub open spec fn problem(&self) -> Option<TransportError> {
        if self.checks() is None {
            Some(TransportError::InvalidCertificateChecks)
        } else if self.send_pw is None {
            Some(TransportError::MissingSmtpPassword)
        } else if self.mail_pw is None {
            Some(TransportError::MissingImapPassword)
        } else if self.has_lists() {
            if self.imap_servers is Unreadable {
                Some(TransportError::UnreadableImapServers)
            } else if self.smtp_servers is Unreadable {
                Some(TransportError::UnreadableSmtpServers)
            } else {
                None
            }
        } else if self.send_server is None {
            Some(TransportError::MissingSmtpServer)
        } else if security_setting(self.mail_security) is None || security_setting(
            self.send_security,
        ) is None {
            Some(TransportError::SocketNotConfigured)
        } else {
            None
        }
    }

    /// Whether `p` are the login parameters that the settings describe.
    pub open spec fn describes(&self, p: ConfiguredLoginParam) -> bool {
        &&& p.addr@ == text::trimmed(setting(self.addr))
        &&& p.imap_folder is None
        &&& p.imap_user@ == setting(self.mail_user)
        &&& p.smtp_user@ == setting(self.send_user)
        &&& self.mail_pw == Some(p.imap_password)
        &&& self.send_pw == Some(p.smtp_password)
        &&& self.checks() == Some(p.certificate_checks)
        &&& if self.has_lists() {
            self.imap_servers == ServerList::Servers(p.imap) && self.smtp_servers
                == ServerList::Servers(p.smtp)
        } else {
            &&& single_server(
                p.imap@,
                self.mail_server,
                self.mail_port,
                self.mail_security,
                self.mail_user,
            )
            &&& single_server(
                p.smtp@,
                self.send_server,
                self.send_port,
                self.send_security,
                self.send_user,
            )
        }
    }
}

fn setting_text(s: Option<String>) -> (r: String)
    ensures
        r@ == setting(s),
{
    match s {
        Some(t) => t,
        None => String::new(),
    }
}

fn one_server(
    server: Option<String>,
    port: Option<u16>,
    security: Option<Socket>,
    user: &String,
) -> (r: Result<Vec<ConfiguredServerLoginParam>, TransportError>)
    ensures
        match r {
            Ok(list) => single_server(list@, server, port, security, Some(*user)),
            Err(e) => security_setting(security) is None && e is SocketNotConfigured,
        },
{
    let socket = match security {
        Some(socket) => socket,
        None => Socket::Automatic,
    };
    match ConnectionSecurity::try_from(socket) {
        Ok(security) => {
            let mut list: Vec<ConfiguredServerLoginParam> = Vec::new();
            let port: u16 = match port {
                Some(number) => number,
                None => 0,
            };
            let connection = ConnectionCandidate { host: setting_text(server), port, security };
            list.push(ConfiguredServerLoginParam { connection, user: user.clone() });
            Ok(list)
        },
        Err(e) => Err(e),
    }
}

impl ConfiguredLoginParam {
    /// Reads the login parameters from the settings that held them before there was a table of
    /// transports. `None` if the account is not configured.
    pub fn load_legacy(config: LegacyConfig) -> (r: Result<
        Option<ConfiguredLoginParam>,
        TransportError,
    >)
        ensures
            match r {
                Ok(None) => !config.configured,
                Ok(Some(param)) => config.configured && config.problem() is None
                    && config.describes(param),
                Err(e) => config.configured && config.problem() == Some(e),
            },
    {
        if !config.configured {
            return Ok(None);
        }
        let addr = text::trim(setting_text(config.addr).as_str());
        let certificate_checks = match config.certificate_checks {
            Some(number) => match ConfiguredCertificateChecks::from_i32(number) {
                Some(checks) => checks,
                None => {
                    return Err(TransportError::InvalidCertificateChecks);
                },
            },
            None => ConfiguredCertificateChecks::OldAutomatic,
        };
        let send_pw = match config.send_pw {
            Some(pw) => pw,
            None => {
                return Err(TransportError::MissingSmtpPassword);
            },
        };
        let mail_pw = match config.mail_pw {
            Some(pw) => pw,
            None => {
                return Err(TransportError::MissingImapPassword);
            },
        };
        let mail_user = setting_text(config.mail_user);
        let send_user = setting_text(config.send_user);
        let missing_list = matches!(config.imap_servers, ServerList::Missing)
            || matches!(config.smtp_servers, ServerList::Missing);
        let imap: Vec<ConfiguredServerLoginParam>;
        let smtp: Vec<ConfiguredServerLoginParam>;
        if !missing_list {
            imap = match config.imap_servers {
                ServerList::Servers(list) => list,
                _ => {
                    return Err(TransportError::UnreadableImapServers);
                },
            };
            smtp = match config.smtp_servers {
                ServerList::Servers(list) => list,
                _ => {
                    return Err(TransportError::UnreadableSmtpServers);
                },
            };
        } else {
            if config.send_server.is_none() {
                return Err(TransportError::MissingSmtpServer);
            }
            imap = match one_server(
                config.mail_server,
                config.mail_port,
                config.mail_security,
                &mail_user,
            ) {
                Ok(list) => list,
                Err(e) => {
                    return Err(e);
                },
            };
            smtp = match one_server(
                config.send_server,
                config.send_port,
                config.send_security,
                &send_user,
            ) {
                Ok(list) => list,
                Err(e) => {
                    return Err(e);
                },
            };
        }
        Ok(
            Some(
                ConfiguredLoginParam {
                    addr,
                    imap,
                    imap_folder: None,
                    imap_user: mail_user,
                    imap_password: mail_pw,
                    smtp,
                    smtp_user: send_user,
                    smtp_password: send_pw,
                    certificate_checks,
                },
            ),
        )
    }
}

/// Storing login parameters and reading them back gives the same parameters.
pub proof fn law_stored_param_is_read_back(p: ConfiguredLoginParam)
    ensures
        loaded_param(stored_param(p)) == p,
        folder_ok(p.imap_folder) == folder_ok(stored_param(p).imap_folder),
{
}

/// The description of login parameters shows neither users nor passwords, and of an address
/// with a domain nothing but the domain.
pub proof fn law_description_hides_credentials(
    p: ConfiguredLoginParam,
    q: ConfiguredLoginParam,
    domain: Seq<char>,
)
    requires
        p.imap@.len() == q.imap@.len(),
        forall|i: int| 0 <= i < p.imap@.len() ==> (#[trigger] p.imap@[i]).connection == q.imap@[i].connection,
        p.smtp@.len() == q.smtp@.len(),
        forall|i: int| 0 <= i < p.smtp@.len() ==> (#[trigger] p.smtp@[i]).connection == q.smtp@[i].connection,
        p.imap_folder == q.imap_folder,
        p.certificate_checks == q.certificate_checks,
    ensures
        p.description(Some(domain), p.quoted_folder()) == q.description(
            Some(domain),
            q.quoted_folder(),
        ),
{
    let f = |p: ConfiguredServerLoginParam| p.connection.description();
    assert(p.imap@.map_values(f) =~= q.imap@.map_values(f));
    assert(p.smtp@.map_values(f) =~= q.smtp@.map_values(f));
}

/// The number that a kind of certificate checks is stored as.
pub open spec fn stored_number(checks: ConfiguredCertificateChecks) -> int {
    match checks {
        ConfiguredCertificateChecks::OldAutomatic => 0,
        ConfiguredCertificateChecks::Strict => 1,
        ConfiguredCertificateChecks::AcceptInvalidCertificates => 2,
        ConfiguredCertificateChecks::AcceptInvalidCertificates2 => 3,
        ConfiguredCertificateChecks::Automatic => 4,
    }
}

/// Each kind of certificate checks is read back from the number that it is stored as, and no other
/// number is read.
pub proof fn law_certificate_checks_are_read_back(checks: ConfiguredCertificateChecks, value: int)
    ensures
        ConfiguredCertificateChecks::of_number(stored_number(checks)) == Some(checks),
        ConfiguredCertificateChecks::of_number(value) == Some(checks) ==> value == stored_number(
            checks,
        ),
        ConfiguredCertificateChecks::of_number(value) is Some <==> 0 <= value <= 4,
{
}

/// Strict checks are never given up where they were asked for, and never made where invalid
/// certificates are to be accepted. Otherwise an override for the domain disables them. Without
/// one, automatic checks are strict, and old ones are if there is a proxy.
pub proof fn law_certificates_are_checked(
    p: ConfiguredLoginParam,
    through_proxy: bool,
    override_disables: bool,
)
    ensures
        ({
            let strict = p.checks_strictly(through_proxy, override_disables);
            &&& p.certificate_checks is Strict ==> strict
            &&& p.certificate_checks is AcceptInvalidCertificates ==> !strict
            &&& p.certificate_checks is AcceptInvalidCertificates2 ==> !strict
            &&& override_disables && !(p.certificate_checks is Strict) ==> !strict
            &&& !override_disables && p.certificate_checks is Automatic ==> strict
            &&& !override_disables && p.certificate_checks is OldAutomatic ==> strict
                == through_proxy
        }),
{
}

/// A setting stands for the security of its name; automatic selection stands for none.
pub proof fn law_socket_stands_for_its_security(socket: Socket)
    ensures
        ConnectionSecurity::of_socket(socket) is None <==> socket is Automatic,
        ConnectionSecurity::of_socket(socket) == Some(ConnectionSecurity::Tls) <==> socket is Ssl,
        ConnectionSecurity::of_socket(socket) == Some(ConnectionSecurity::Starttls)
            <==> socket is Starttls,
        ConnectionSecurity::of_socket(socket) == Some(ConnectionSecurity::Plain)
            <==> socket is Plain,
        security_setting(Some(socket)) == ConnectionSecurity::of_socket(socket),
        security_setting(None) is None,
{
}

/// Of two servers, the one to which a connection was made later is tried first; one that was never
/// connected to comes after those that were, and otherwise the servers keep their order.
pub proof fn law_last_server_is_tried_first(
    params: Seq<ConfiguredServerLoginParam>,
    stamps: Seq<Option<i64>>,
    j: int,
    k: int,
)
    requires
        stamps.len() == params.len(),
        0 <= j < k < params.len(),
    ensures
        prioritized(params, stamps).len() == params.len(),
        exists|a: int, b: int|
            0 <= a < params.len() && 0 <= b < params.len() && a != b && prioritized(
                params,
                stamps,
            )[j] == #[trigger] params[a] && prioritized(params, stamps)[k] == #[trigger] params[b]
                && match (stamps[a], stamps[b]) {
                (Some(x), Some(y)) => x > y || (x == y && a < b),
                (Some(_), None) => true,
                (None, Some(_)) => false,
                (None, None) => a < b,
            },
{
    order::lemma_latest_first(stamps);
    let ord = order::latest_first(stamps);
    let a = ord[j];
    let b = ord[k];
    assert(order::comes_first(stamps, a, b));
    assert(a != b);
    assert(prioritized(params, stamps)[j] == params[a]);
    assert(prioritized(params, stamps)[k] == params[b]);
}

/// Storing login parameters keeps every field, and reading them does so too.
pub proof fn law_stored_param_keeps_every_field(
    p: ConfiguredLoginParam,
    json: ConfiguredLoginParamJson,
)
    ensures
        stored_param(p).addr == p.addr,
        stored_param(p).imap == p.imap,
        stored_param(p).imap_folder == p.imap_folder,
        stored_param(p).imap_user == p.imap_user,
        stored_param(p).imap_password == p.imap_password,
        stored_param(p).smtp == p.smtp,
        stored_param(p).smtp_user == p.smtp_user,
        stored_param(p).smtp_password == p.smtp_password,
        stored_param(p).certificate_checks == p.certificate_checks,
        !stored_param(p).oauth2,
        loaded_param(json).addr == json.addr,
        loaded_param(json).imap == json.imap,
        loaded_param(json).imap_folder == json.imap_folder,
        loaded_param(json).imap_user == json.imap_user,
        loaded_param(json).imap_password == json.imap_password,
        loaded_param(json).smtp == json.smtp,
        loaded_param(json).smtp_user == json.smtp_user,
        loaded_param(json).smtp_password == json.smtp_password,
        loaded_param(json).certificate_checks == json.certificate_checks,
        folder_ok(json.imap_folder) <==> json.imap_folder is None || json.imap_folder->0@.len()
            > 0,
{
}

/// Old settings can be read exactly if the number of the certificate checks is known where it is
/// set, both passwords are set, and there are either two readable lists of servers or, if one of
/// the lists is missing, an SMTP server and the security of both servers.
pub proof fn law_old_settings_can_be_read(config: LegacyConfig)
    ensures
        config.problem() is None <==> {
            &&& config.certificate_checks is Some ==> 0 <= config.certificate_checks->0 <= 4
            &&& config.send_pw is Some
            &&& config.mail_pw is Some
            &&& {
                ||| config.imap_servers is Servers && config.smtp_servers is Servers
                ||| {
                    &&& config.imap_servers is Missing || config.smtp_servers is Missing
                    &&& config.send_server is Some
                    &&& config.mail_security is Some && !(config.mail_security->0 is Automatic)
                    &&& config.send_security is Some && !(config.send_security->0 is Automatic)
                }
            }
        },
{
}

/// What is said to be wrong with old settings is wrong with them.
pub proof fn law_problem_of_old_settings_is_real(config: LegacyConfig)
    requires
        config.problem() is Some,
    ensures
        match config.problem()->0 {
            TransportError::InvalidCertificateChecks => config.certificate_checks is Some && !(0
                <= config.certificate_checks->0 <= 4),
            TransportError::MissingSmtpPassword => config.send_pw is None,
            TransportError::MissingImapPassword => config.mail_pw is None && config.send_pw is Some,
            TransportError::UnreadableImapServers => config.imap_servers is Unreadable
                && !(config.smtp_servers is Missing),
            TransportError::UnreadableSmtpServers => config.smtp_servers is Unreadable
                && config.imap_servers is Servers,
            TransportError::MissingSmtpServer => config.send_server is None && (
            config.imap_servers is Missing || config.smtp_servers is Missing),
            TransportError::SocketNotConfigured => config.mail_security is None
                || config.mail_security->0 is Automatic || config.send_security is None
                || config.send_security->0 is Automatic,
            _ => false,
        },
        !(config.problem()->0 is InvalidCertificateChecks) ==> config.certificate_checks is None
            || 0 <= config.certificate_checks->0 <= 4,
        config.problem()->0 is UnreadableImapServers || config.problem()->0 is UnreadableSmtpServers
            || config.problem()->0 is MissingSmtpServer || config.problem()->0
            is SocketNotConfigured ==> config.send_pw is Some && config.mail_pw is Some,
{
}

/// Each login parameter comes out of the setting of its own: the receiving ones are for IMAP, the
/// sending ones for SMTP. A text that is not set is empty, and a port is zero. Stored lists of
/// servers are used only if both are there.
pub proof fn law_old_settings_go_where_they_belong(config: LegacyConfig, p: ConfiguredLoginParam)
    requires
        config.describes(p),
    ensures
        config.mail_pw == Some(p.imap_password),
        config.send_pw == Some(p.smtp_password),
        p.imap_folder is None,
        config.mail_user is Some ==> p.imap_user@ == config.mail_user->0@,
        config.mail_user is None ==> p.imap_user@.len() == 0,
        config.send_user is Some ==> p.smtp_user@ == config.send_user->0@,
        config.send_user is None ==> p.smtp_user@.len() == 0,
        config.addr is Some ==> p.addr@ == text::trimmed(config.addr->0@),
        config.addr is None ==> p.addr@.len() == 0,
        config.certificate_checks is None ==> p.certificate_checks is OldAutomatic,
        config.certificate_checks is Some ==> config.certificate_checks->0 == stored_number(
            p.certificate_checks,
        ),
        !(config.imap_servers is Missing) && !(config.smtp_servers is Missing) ==> {
            &&& config.imap_servers == ServerList::Servers(p.imap)
            &&& config.smtp_servers == ServerList::Servers(p.smtp)
        },
        config.imap_servers is Missing || config.smtp_servers is Missing ==> {
            &&& p.imap@.len() == 1
            &&& p.imap@[0].user@ == p.imap_user@
            &&& config.mail_server is Some ==> p.imap@[0].connection.host@
                == config.mail_server->0@
            &&& config.mail_server is None ==> p.imap@[0].connection.host@.len() == 0
            &&& config.mail_port is Some ==> p.imap@[0].connection.port == config.mail_port->0
            &&& config.mail_port is None ==> p.imap@[0].connection.port == 0
            &&& config.mail_security is Some
            &&& ConnectionSecurity::of_socket(config.mail_security->0) == Some(
                p.imap@[0].connection.security,
            )
            &&& p.smtp@.len() == 1
            &&& p.smtp@[0].user@ == p.smtp_user@
            &&& config.send_server is Some ==> p.smtp@[0].connection.host@
                == config.send_server->0@
            &&& config.send_port is Some ==> p.smtp@[0].connection.port == config.send_port->0
            &&& config.send_port is None ==> p.smtp@[0].connection.port == 0
            &&& config.send_security is Some
            &&& ConnectionSecurity::of_socket(config.send_security->0) == Some(
                p.smtp@[0].connection.security,
            )
        },
{
}

/// The description of login parameters begins with the domain of the address behind stars, or
/// with the whole address if it has none, and names the servers, the folder and the checks.
pub proof fn law_description_names_the_servers(
    p: ConfiguredLoginParam,
    domain: Option<Seq<char>>,
    folder: Option<Seq<char>>,
)
    ensures
        ({
            let d = p.description(domain, folder);
            &&& domain is Some ==> ("***@"@ + domain->0).is_prefix_of(d)
            &&& domain is None ==> p.addr@.is_prefix_of(d)
            &&& p.certificate_checks.name().is_suffix_of(d)
            &&& text::occurs(server_list(p.imap@), d)
            &&& text::occurs(server_list(p.smtp@), d)
            &&& folder is Some ==> text::occurs(folder->0, d)
        }),
{
    let d = p.description(domain, folder);
    let start = match domain {
        Some(name) => "***@"@ + name,
        None => p.addr@,
    };
    let imap = server_list(p.imap@);
    let smtp = server_list(p.smtp@);
    let mid = match folder {
        Some(name) => " folder:"@ + name,
        None => Seq::empty(),
    };
    let name = p.certificate_checks.name();
    assert(d.subrange(0, start.len() as int) =~= start);
    assert(d.subrange(d.len() - name.len(), d.len() as int) =~= name);
    let at_imap = (start + " imap:["@).len() as int;
    assert(d.subrange(at_imap, at_imap + imap.len()) =~= imap);
    let at_mid = at_imap + (imap + "]"@).len();
    assert(d.subrange(at_mid, at_mid + mid.len()) =~= mid);
    let at_smtp = at_mid + (mid + " smtp:["@).len();
    assert(d.subrange(at_smtp, at_smtp + smtp.len()) =~= smtp);
    if let Some(text) = folder {
        let at = at_mid + " folder:"@.len();
        assert(d.subrange(at, at + text.len()) =~= text) by {
            assert(d.subrange(at_mid, at_mid + mid.len()).subrange(
                " folder:"@.len() as int,
                mid.len() as int,
            ) =~= text);
        }
    }
}

/// A server is described by its host, its port and its security, in this order.
pub proof fn law_server_is_described(c: ConnectionCandidate)
    ensures
        (c.host@ + ":"@ + text::decimal(c.port as nat)).is_prefix_of(c.description()),
        c.security.name().is_suffix_of(c.description()),
{
    let d = c.description();
    let start = c.host@ + ":"@ + text::decimal(c.port as nat);
    let name = c.security.name();
    assert(d.subrange(0, start.len() as int) =~= start);
    assert(d.subrange(d.len() - name.len(), d.len() as int) =~= name);
}

/// A list of servers names each of them as it is described, in their order, with a comma and a
/// space between two.
pub proof fn law_servers_are_listed(
    a: Seq<ConfiguredServerLoginParam>,
    b: Seq<ConfiguredServerLoginParam>,
    p: ConfiguredServerLoginParam,
)
    ensures
        server_list(Seq::empty()).len() == 0,
        server_list(seq![p]) == p.connection.host@ + ":"@ + text::decimal(p.connection.port as nat)
            + ":"@ + p.connection.security.name(),
        a.len() > 0 && b.len() > 0 ==> server_list(a + b) == server_list(a) + ", "@ + server_list(b),
{
    let f = |p: ConfiguredServerLoginParam| p.connection.description();
    let one = p.connection.description();
    assert(Seq::<ConfiguredServerLoginParam>::empty().map_values(f) =~= Seq::<Seq<char>>::empty());
    assert(seq![p].map_values(f) =~= seq![one]);
    assert((a + b).map_values(f) =~= a.map_values(f) + b.map_values(f));
    text::law_joining(a.map_values(f), b.map_values(f), one, ", "@);
}

} // verus!
