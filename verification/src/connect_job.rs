//! Making a connection, step by step.
//!
//! `Smtp::connect_configured` begins to connect to one of the configured transports, and
//! `Smtp::connect` to one of the servers of a single transport. Each step takes what came of the
//! last action and says what is to be done next.

use vstd::prelude::*;

use crate::address;
use crate::smtp::{Link, Smtp, SmtpError};
use crate::text;
use crate::transport;
use crate::transport::{ConfiguredLoginParam, ConfiguredServerLoginParam};
use crate::transport_store;

verus! {

// ---------------------------------------------------------------------------
// The servers of one transport
// ---------------------------------------------------------------------------

/// The servers that are tried one after the other until a login succeeds.
pub struct ServerSearch {
    candidates: Vec<ConfiguredServerLoginParam>,
    next: usize,
    first_error: Option<String>,
}

/// How far a search is.
pub struct SearchState {
    /// The servers in the order in which they are tried.
    pub servers: Seq<ConfiguredServerLoginParam>,
    /// How many of them have failed.
    pub tried: int,
    /// The error of the first one.
    pub error: Option<Seq<char>>,
}

impl View for ServerSearch {
    type V = SearchState;

    closed spec fn view(&self) -> SearchState {
        SearchState {
            servers: self.candidates@,
            tried: self.next as int,
            error: transport_store::opt_text(self.first_error),
        }
    }
}

impl SearchState {
    /// Nothing was tried yet.
    pub open spec fn start(servers: Seq<ConfiguredServerLoginParam>) -> SearchState {
        SearchState { servers, tried: 0, error: None }
    }

    /// The state after one more server failed. The first error is kept.
    pub open spec fn failed(self, error: Seq<char>) -> SearchState {
        SearchState {
            tried: self.tried + 1,
            error: if self.error is None {
                Some(error)
            } else {
                self.error
            },
            ..self
        }
    }

    /// The state after servers failed with the given errors, one after the other.
    pub open spec fn after(self, errors: Seq<Seq<char>>) -> SearchState
        decreases errors.len(),
    {
        if errors.len() == 0 {
            self
        } else {
            self.after(errors.drop_last()).failed(errors.last())
        }
    }
}

/// However many servers fail, they were tried in the order of priority, each once, and the error
/// of the first one is kept.
pub proof fn law_first_connection_error_is_kept(
    servers: Seq<ConfiguredServerLoginParam>,
    errors: Seq<Seq<char>>,
)
    ensures
        SearchState::start(servers).after(errors) == (SearchState {
            servers,
            tried: errors.len() as int,
            error: if errors.len() > 0 {
                Some(errors[0])
            } else {
                None
            },
        }),
    decreases errors.len(),
{
    if errors.len() > 0 {
        law_first_connection_error_is_kept(servers, errors.drop_last());
    }
}

/// What came of an action.
pub enum ServerEvent {
    /// For each server when it was connected to last.
    Stamps(Vec<Option<i64>>),
    /// The login succeeded at the given time.
    LoggedIn { now: u64 },
    /// The server could not be connected to, for the given reason.
    Failed(String),
    /// The event was emitted.
    Reported,
}

/// What is to be done.
pub enum ServerAction {
    /// Find out when each server was connected to last.
    GetStamps(Vec<ConfiguredServerLoginParam>),
    /// Connect to a server and log in.
    Try(ConfiguredServerLoginParam),
    /// Emit an event with the given text.
    Report(String),
    /// Nothing more; whether there is a connection.
    Finish(Result<(), SmtpError>),
}

/// How far a job is.
pub enum ServerJob {
    Prioritizing { params: Vec<ConfiguredServerLoginParam> },
    Trying { search: ServerSearch, user: String },
    Reporting,
    Done,
}

impl ServerEvent {
    /// Whether the event answers the action that a job waits for.
    pub open spec fn answers(&self, job: ServerJob) -> bool {
        match job {
            ServerJob::Prioritizing { params } => self matches ServerEvent::Stamps(stamps)
                && stamps@.len() == params@.len(),
            ServerJob::Trying { .. } => self is LoggedIn || self is Failed,
            ServerJob::Reporting => self is Reported,
            ServerJob::Done => false,
        }
    }
}

/// The job ends.
pub open spec fn server_ends(
    after: ServerJob,
    action: ServerAction,
    result: Result<(), SmtpError>,
) -> bool {
    after is Done && action == ServerAction::Finish(result)
}

/// The job goes on with the next server. If there is none left, it ends with the error of the
/// first one, or an error of its own if there was none.
pub open spec fn tries_next(state: SearchState, after: ServerJob, action: ServerAction) -> bool {
    if state.tried < state.servers.len() {
        &&& after matches ServerJob::Trying { search, user }
        &&& search@ == state
        &&& user@ == state.servers[state.tried].user@
        &&& action == ServerAction::Try(state.servers[state.tried])
    } else {
        &&& after is Done
        &&& action matches ServerAction::Finish(Err(e))
        &&& match state.error {
            Some(cause) => e matches SmtpError::Unreachable(text) && text@ == cause,
            None => e is NoCandidates,
        }
    }
}

/// How a job begins: not at all if there is a connection, nor with an invalid address. Otherwise
/// the address is the one to send from.
pub open spec fn server_begins(
    link: Link,
    params: Seq<ConfiguredServerLoginParam>,
    addr: Seq<char>,
    after: ServerJob,
    action: ServerAction,
    link_after: Link,
) -> bool {
    if link.connected {
        server_ends(after, action, Ok(())) && link_after == link
    } else if !address::valid_address(addr) {
        &&& after is Done
        &&& action matches ServerAction::Finish(Err(SmtpError::InvalidAddress { quoted_addr }))
        &&& quoted_addr@ == text::quoted(addr)
        &&& link_after == link
    } else {
        &&& after matches ServerJob::Prioritizing { params: p }
        &&& p@ == params
        &&& action matches ServerAction::GetStamps(list)
        &&& list@ == params
        &&& link_after == (Link { from: Some(addr), ..link })
    }
}

/// What a job does next, and what becomes of the connection.
pub open spec fn server_steps(
    before: ServerJob,
    link: Link,
    event: ServerEvent,
    after: ServerJob,
    action: ServerAction,
    link_after: Link,
) -> bool {
    match (before, event) {
        (ServerJob::Prioritizing { params }, ServerEvent::Stamps(stamps)) => {
            &&& tries_next(
                SearchState::start(transport::prioritized(params@, stamps@)),
                after,
                action,
            )
            &&& link_after == link
        },
        (ServerJob::Trying { search, user }, ServerEvent::LoggedIn { now }) => {
            &&& after is Reporting
            &&& action matches ServerAction::Report(report)
            &&& report@ == "SMTP-LOGIN as "@ + user@ + " ok"@
            &&& link_after == (Link { connected: true, last_success: Some(now), ..link })
        },
        (ServerJob::Trying { search, .. }, ServerEvent::Failed(error)) => {
            &&& tries_next(search@.failed(error@), after, action)
            &&& link_after == link
        },
        (ServerJob::Reporting, ServerEvent::Reported) => server_ends(after, action, Ok(()))
            && link_after == link,
        _ => false,
    }
}

impl ServerSearch {
    /// A server is being tried.
    pub closed spec fn wf(&self) -> bool {
        self.next < self.candidates.len()
    }

    fn new(params: &Vec<ConfiguredServerLoginParam>, stamps: &Vec<Option<i64>>) -> (r: ServerSearch)
        requires
            stamps@.len() == params@.len(),
        ensures
            r@ == SearchState::start(transport::prioritized(params@, stamps@)),
    {
        let candidates = transport::prioritize_server_login_params(params, stamps);
        ServerSearch { candidates, next: 0, first_error: None }
    }

    fn fail(&mut self, error: String)
        requires
            old(self).wf(),
        ensures
            final(self)@ == old(self)@.failed(error@),
    {
        if self.first_error.is_none() {
            self.first_error = Some(error);
        }
        self.next = self.next + 1;
    }

    fn go_on(self) -> (r: (ServerJob, ServerAction))
        ensures
            r.0.wf(),
            tries_next(self@, r.0, r.1),
    {
        if self.next < self.candidates.len() {
            let server = self.candidates[self.next].clone();
            let user = server.user.clone();
            (ServerJob::Trying { search: self, user }, ServerAction::Try(server))
        } else {
            let error = match self.first_error {
                Some(cause) => SmtpError::Unreachable(cause),
                None => SmtpError::NoCandidates,
            };
            (ServerJob::Done, ServerAction::Finish(Err(error)))
        }
    }
}

impl ServerJob {
    /// A job that tries a server has one to try.
    pub open spec fn wf(&self) -> bool {
        self matches ServerJob::Trying { search, .. } ==> search.wf()
    }

    /// Takes what came of the last action, and says what is to be done next.
    pub fn step(self, smtp: &mut Smtp, event: ServerEvent) -> (r: (ServerJob, ServerAction))
        requires
            self.wf(),
            event.answers(self),
        ensures
            r.0.wf(),
            server_steps(self, old(smtp)@, event, r.0, r.1, final(smtp)@),
    {
        match (self, event) {
            (ServerJob::Prioritizing { params }, ServerEvent::Stamps(stamps)) => {
                ServerSearch::new(&params, &stamps).go_on()
            },
            (ServerJob::Trying { user, .. }, ServerEvent::LoggedIn { now }) => {
                let report = smtp.logged_in(user.as_str(), now);
                (ServerJob::Reporting, ServerAction::Report(report))
            },
            (ServerJob::Trying { search, .. }, ServerEvent::Failed(error)) => {
                let mut search = search;
                search.fail(error);
                search.go_on()
            },
            (ServerJob::Reporting, ServerEvent::Reported) => (
                ServerJob::Done,
                ServerAction::Finish(Ok(())),
            ),
            _ => (ServerJob::Done, ServerAction::Finish(Ok(()))),
        }
    }
}

fn copied(list: &Vec<ConfiguredServerLoginParam>) -> (r: Vec<ConfiguredServerLoginParam>)
    ensures
        r@ == list@,
{
    let mut r: Vec<ConfiguredServerLoginParam> = Vec::new();
    for i in 0..list.len()
        invariant
            r@ == list@.take(i as int),
    {
        r.push(list[i].clone());
        assert(list@.take(i + 1) =~= list@.take(i as int).push(list@[i as int]));
    }
    assert(list@.take(list@.len() as int) =~= list@);
    r
}

impl Smtp {
    /// Begins to connect to one of the given servers, for sending from `addr`.
    pub fn connect(
        &mut self,
        login_params: &Vec<ConfiguredServerLoginParam>,
        addr: &str,
    ) -> (r: (ServerJob, ServerAction))
        ensures
            r.0.wf(),
            server_begins(old(self)@, login_params@, addr@, r.0, r.1, final(self)@),
    {
        if self.is_connected() {
            return (ServerJob::Done, ServerAction::Finish(Ok(())));
        }
        match address::smtp_address(addr.to_owned()) {
            Some(from) => {
                self.from = Some(from);
            },
            None => {
                let quoted_addr = text::quoted_text(addr);
                let error = SmtpError::InvalidAddress { quoted_addr };
                return (ServerJob::Done, ServerAction::Finish(Err(error)));
            },
        }
        (
            ServerJob::Prioritizing { params: copied(login_params) },
            ServerAction::GetStamps(copied(login_params)),
        )
    }
}

// ---------------------------------------------------------------------------
// All transports
// ---------------------------------------------------------------------------

/// A transport that can be connected to.
pub struct TransportLogin {
    pub id: u32,
    pub param: ConfiguredLoginParam,
}

/// What came of an action.
pub enum ConnectEvent {
    /// The transports, by ascending identifier, and whether there is a proxy.
    Transports { transports: Vec<TransportLogin>, through_proxy: bool },
    /// Whether strict checks of certificates are disabled for the domain of the transport.
    Override { disable_strict_tls: bool },
    /// What came of an action that concerns the servers of a transport.
    Server(ServerEvent),
}

/// What is to be done.
pub enum ConnectAction {
    /// Load the transports and the settings of the proxy.
    GetTransports,
    /// Find out whether strict checks are disabled for the domain of an address.
    GetOverride { addr: String },
    /// Find out when each server was connected to last.
    GetStamps(Vec<ConfiguredServerLoginParam>),
    /// Connect to a server and log in.
    Try { server: ConfiguredServerLoginParam, password: String, strict_tls: bool },
    /// Emit an event with the given text.
    Report(String),
    /// Nothing more; whether there is a connection.
    Finish(Result<(), SmtpError>),
}

/// How far a job is.
pub enum ConnectJob {
    Loading,
    /// The transport `at` is to be connected to.
    Choosing { transports: Vec<TransportLogin>, at: usize, through_proxy: bool },
    /// The transport `at` is being connected to.
    Connecting {
        transports: Vec<TransportLogin>,
        at: usize,
        through_proxy: bool,
        strict_tls: bool,
        servers: ServerJob,
    },
    Done,
}

/// How a job begins.
pub struct ConnectStart {
    /// Whether a connection was dropped, so that the server has to be told.
    pub quit: bool,
    pub job: ConnectJob,
    pub action: ConnectAction,
}

impl ConnectEvent {
    /// Whether the event answers the action that a job waits for.
    pub open spec fn answers(&self, job: ConnectJob) -> bool {
        match job {
            ConnectJob::Loading => self is Transports,
            ConnectJob::Choosing { .. } => self is Override,
            ConnectJob::Connecting { servers, .. } => self matches ConnectEvent::Server(event)
                && event.answers(servers),
            ConnectJob::Done => false,
        }
    }
}

/// The job goes on with the last of the first `left` transports, as the newest is tried first: if
/// sending is unreliable, a new transport helps, and removing it again restores the old state.
/// Without any left, the job fails.
pub open spec fn chooses(
    transports: Seq<TransportLogin>,
    left: int,
    through_proxy: bool,
    after: ConnectJob,
    action: ConnectAction,
) -> bool {
    if left > 0 {
        &&& after matches ConnectJob::Choosing { transports: t, at, through_proxy: p }
        &&& t@ == transports
        &&& at == left - 1
        &&& p == through_proxy
        &&& action matches ConnectAction::GetOverride { addr }
        &&& addr@ == transports[left - 1].param.addr@
    } else {
        after is Done && action == ConnectAction::Finish(Err(SmtpError::NoServer))
    }
}

/// The job does what the job for the servers of the transport `at` says. If that one fails, the
/// next transport is tried; if it succeeds, the transport is remembered.
pub open spec fn follows(
    transports: Seq<TransportLogin>,
    at: int,
    through_proxy: bool,
    strict_tls: bool,
    servers: ServerJob,
    inner: ServerAction,
    link: Link,
    after: ConnectJob,
    action: ConnectAction,
    link_after: Link,
) -> bool {
    match inner {
        ServerAction::Finish(Ok(_)) => {
            &&& after is Done
            &&& action == ConnectAction::Finish(Ok(()))
            &&& link_after == (Link { transport_id: Some(transports[at].id), ..link })
        },
        ServerAction::Finish(Err(_)) => chooses(transports, at, through_proxy, after, action)
            && link_after == link,
        _ => {
            &&& after matches ConnectJob::Connecting {
                transports: t,
                at: a,
                through_proxy: p,
                strict_tls: s,
                servers: j,
            }
            &&& t@ == transports
            &&& a == at
            &&& p == through_proxy
            &&& s == strict_tls
            &&& j == servers
            &&& link_after == link
            &&& match inner {
                ServerAction::GetStamps(list) => action == ConnectAction::GetStamps(list),
                ServerAction::Try(server) => {
                    &&& action matches ConnectAction::Try { server: v, password, strict_tls: t }
                    &&& v == server
                    &&& password@ == transports[at].param.smtp_password@
                    &&& t == strict_tls
                },
                ServerAction::Report(report) => action == ConnectAction::Report(report),
                ServerAction::Finish(_) => false,
            }
        },
    }
}

/// What the job for the servers of a transport does, in between.
pub struct Inner {
    pub job: ServerJob,
    pub action: ServerAction,
    pub link: Link,
}

/// What a job does next, and what becomes of the connection.
pub open spec fn steps(
    before: ConnectJob,
    link: Link,
    event: ConnectEvent,
    after: ConnectJob,
    action: ConnectAction,
    link_after: Link,
) -> bool {
    match (before, event) {
        (ConnectJob::Loading, ConnectEvent::Transports { transports, through_proxy }) => {
            &&& chooses(
                transports@,
                transports@.len() as int,
                through_proxy,
                after,
                action,
            )
            &&& link_after == link
        },
        (
            ConnectJob::Choosing { transports, at, through_proxy },
            ConnectEvent::Override { disable_strict_tls },
        ) => {
            let param = transports@[at as int].param;
            exists|i: Inner| #[trigger]
                server_begins(link, param.smtp@, param.addr@, i.job, i.action, i.link) && follows(
                    transports@,
                    at as int,
                    through_proxy,
                    param.checks_strictly(through_proxy, disable_strict_tls),
                    i.job,
                    i.action,
                    i.link,
                    after,
                    action,
                    link_after,
                )
        },
        (
            ConnectJob::Connecting { transports, at, through_proxy, strict_tls, servers },
            ConnectEvent::Server(event),
        ) => exists|i: Inner| #[trigger]
            server_steps(servers, link, event, i.job, i.action, i.link) && follows(
                transports@,
                at as int,
                through_proxy,
                strict_tls,
                i.job,
                i.action,
                i.link,
                after,
                action,
                link_after,
            ),
        _ => false,
    }
}

/// How a job begins: a connection that may be stale is dropped first, and one that is left is
/// used as it is.
pub open spec fn begins(
    link: Link,
    now: u64,
    job: ConnectJob,
    action: ConnectAction,
    link_after: Link,
) -> bool {
    &&& link_after == link.refreshed(now)
    &&& if link_after.connected {
        job is Done && action == ConnectAction::Finish(Ok(()))
    } else {
        job is Loading && action is GetTransports
    }
}

impl ConnectJob {
    /// The transport that is tried is one of the transports, and a server is being tried.
    pub open spec fn wf(&self) -> bool {
        match self {
            ConnectJob::Choosing { transports, at, .. } => at < transports@.len(),
            ConnectJob::Connecting { transports, at, servers, .. } => at < transports@.len()
                && servers.wf(),
            _ => true,
        }
    }

    fn choose_next(transports: Vec<TransportLogin>, left: usize, through_proxy: bool) -> (r: (
        ConnectJob,
        ConnectAction,
    ))
        requires
            left <= transports@.len(),
        ensures
            r.0.wf(),
            chooses(transports@, left as int, through_proxy, r.0, r.1),
    {
        if left == 0 {
            return (ConnectJob::Done, ConnectAction::Finish(Err(SmtpError::NoServer)));
        }
        let at: usize = left - 1;
        let addr = transports[at].param.addr.clone();
        (
            ConnectJob::Choosing { transports, at, through_proxy },
            ConnectAction::GetOverride { addr },
        )
    }

    fn follow(
        smtp: &mut Smtp,
        transports: Vec<TransportLogin>,
        at: usize,
        through_proxy: bool,
        strict_tls: bool,
        servers: ServerJob,
        inner: ServerAction,
    ) -> (r: (ConnectJob, ConnectAction))
        requires
            at < transports@.len(),
            servers.wf(),
        ensures
            r.0.wf(),
            follows(
                transports@,
                at as int,
                through_proxy,
                strict_tls,
                servers,
                inner,
                old(smtp)@,
                r.0,
                r.1,
                final(smtp)@,
            ),
    {
        let action = match inner {
            ServerAction::Finish(Ok(_)) => {
                smtp.connected_to(transports[at].id);
                return (ConnectJob::Done, ConnectAction::Finish(Ok(())));
            },
            ServerAction::Finish(Err(_)) => {
                return Self::choose_next(transports, at, through_proxy);
            },
            ServerAction::GetStamps(list) => ConnectAction::GetStamps(list),
            ServerAction::Try(server) => {
                let password = transports[at].param.smtp_password.clone();
                ConnectAction::Try { server, password, strict_tls }
            },
            ServerAction::Report(report) => ConnectAction::Report(report),
        };
        (ConnectJob::Connecting { transports, at, through_proxy, strict_tls, servers }, action)
    }

    /// Takes what came of the last action, and says what is to be done next.
    pub fn step(self, smtp: &mut Smtp, event: ConnectEvent) -> (r: (ConnectJob, ConnectAction))
        requires
            self.wf(),
            event.answers(self),
        ensures
            r.0.wf(),
            steps(self, old(smtp)@, event, r.0, r.1, final(smtp)@),
    {
        let ghost link = smtp@;
        match (self, event) {
            (ConnectJob::Loading, ConnectEvent::Transports { transports, through_proxy }) => {
                let left: usize = transports.len();
                Self::choose_next(transports, left, through_proxy)
            },
            (
                ConnectJob::Choosing { transports, at, through_proxy },
                ConnectEvent::Override { disable_strict_tls },
            ) => {
                let param = &transports[at].param;
                let strict_tls = param.strict_tls(through_proxy, disable_strict_tls);
                let (servers, inner) = smtp.connect(&param.smtp, param.addr.as_str());
                let ghost i = Inner { job: servers, action: inner, link: smtp@ };
                assert(server_begins(link, param.smtp@, param.addr@, i.job, i.action, i.link));
                Self::follow(smtp, transports, at, through_proxy, strict_tls, servers, inner)
            },
            (
                ConnectJob::Connecting { transports, at, through_proxy, strict_tls, servers },
                ConnectEvent::Server(event),
            ) => {
                let ghost before = servers;
                let (servers, inner) = servers.step(smtp, event);
                let ghost i = Inner { job: servers, action: inner, link: smtp@ };
                assert(server_steps(before, link, event, i.job, i.action, i.link));
                Self::follow(smtp, transports, at, through_proxy, strict_tls, servers, inner)
            },
            _ => (ConnectJob::Done, ConnectAction::Finish(Err(SmtpError::NoServer))),
        }
    }
}

impl Smtp {
    /// Begins to connect to one of the configured transports at the time `now`. A connection that
    /// may be stale is dropped, and one that is left is used.
    pub fn connect_configured(&mut self, now: u64) -> (r: ConnectStart)
        ensures
            r.job.wf(),
            begins(old(self)@, now, r.job, r.action, final(self)@),
            r.quit == (old(self)@.maybe_stale(now) && old(self)@.connected),
    {
        let mut quit = false;
        if self.has_maybe_stale_connection(now) {
            quit = self.disconnect();
        }
        if self.is_connected() {
            ConnectStart {
                quit,
                job: ConnectJob::Done,
                action: ConnectAction::Finish(Ok(())),
            }
        } else {
            ConnectStart { quit, job: ConnectJob::Loading, action: ConnectAction::GetTransports }
        }
    }
}

// ---------------------------------------------------------------------------
// Laws
// ---------------------------------------------------------------------------

/// A course of a job: its states and the actions that led to them, with the connection in each
/// state, and between each two states the event.
pub struct ConnectCourse {
    /// The connection before, and the time when the job begins.
    pub start: Link,
    pub now: u64,
    pub jobs: Seq<ConnectJob>,
    pub actions: Seq<ConnectAction>,
    pub links: Seq<Link>,
    pub events: Seq<ConnectEvent>,
}

impl ConnectCourse {
    /// The job begins as a new one, and each step is one that a job takes.
    pub open spec fn valid(self) -> bool {
        &&& self.jobs.len() == self.events.len() + 1
        &&& self.actions.len() == self.events.len() + 1
        &&& self.links.len() == self.events.len() + 1
        &&& begins(self.start, self.now, self.jobs[0], self.actions[0], self.links[0])
        &&& forall|i: int| #![trigger self.events[i]]
            0 <= i < self.events.len() ==> self.events[i].answers(self.jobs[i]) && steps(
                self.jobs[i],
                self.links[i],
                self.events[i],
                self.jobs[i + 1],
                self.actions[i + 1],
                self.links[i + 1],
            )
    }

    /// The transports that were found.
    pub open spec fn transports(self) -> Seq<TransportLogin> {
        if self.events.len() == 0 {
            Seq::empty()
        } else {
            match self.events[0] {
                ConnectEvent::Transports { transports, .. } => transports@,
                _ => Seq::empty(),
            }
        }
    }
}

/// The addresses of the transports that are taken up, in order.
pub open spec fn taken_up(actions: Seq<ConnectAction>) -> Seq<Seq<char>>
    decreases actions.len(),
{
    if actions.len() == 0 {
        Seq::empty()
    } else {
        let before = taken_up(actions.drop_last());
        match actions.last() {
            ConnectAction::GetOverride { addr } => before.push(addr@),
            _ => before,
        }
    }
}

/// The addresses of the last `n` transports, the newest first.
pub open spec fn newest(transports: Seq<TransportLogin>, n: nat) -> Seq<Seq<char>> {
    Seq::new(n, |i: int| transports[transports.len() - 1 - i].param.addr@)
}

/// What is known of the connection in the state `i`.
pub open spec fn known(c: ConnectCourse, i: int) -> bool {
    let link = c.links[i];
    match c.jobs[i] {
        ConnectJob::Loading => i == 0 && !link.connected,
        ConnectJob::Choosing { transports, at, .. } => {
            &&& i > 0
            &&& !link.connected
            &&& transports@ == c.transports()
            &&& 0 <= at < transports@.len()
        },
        ConnectJob::Connecting { transports, at, servers, .. } => {
            &&& i > 0
            &&& link.connected == (servers is Reporting)
            &&& !(servers is Done)
            &&& transports@ == c.transports()
            &&& 0 <= at < transports@.len()
            &&& link.from == Some(transports@[at as int].param.addr@)
            &&& match servers {
                ServerJob::Prioritizing { params } => params@
                    == transports@[at as int].param.smtp@,
                ServerJob::Trying { search, .. } => {
                    &&& 0 <= search@.tried < search@.servers.len()
                    &&& c.actions[i] matches ConnectAction::Try { server, password, .. }
                    &&& server == search@.servers[search@.tried]
                    &&& password@ == transports@[at as int].param.smtp_password@
                    &&& search@.servers.to_multiset()
                        == transports@[at as int].param.smtp@.to_multiset()
                },
                _ => true,
            }
            &&& c.actions[i] is Try ==> servers is Trying
        },
        ConnectJob::Done => {
            &&& c.actions[i] matches ConnectAction::Finish(result)
            &&& result is Ok == link.connected
            &&& result matches Err(e) ==> e is NoServer
            &&& i > 0 && result is Ok ==> {
                &&& current(c.jobs[i - 1]) matches Some(t)
                &&& c.transports().contains(t)
                &&& link.transport_id == Some(t.id)
                &&& link.from == Some(t.param.addr@)
            }
        },
    }
}

/// The transport that a job is connecting to.
pub open spec fn current(job: ConnectJob) -> Option<TransportLogin> {
    match job {
        ConnectJob::Connecting { transports, at, .. } => Some(transports@[at as int]),
        _ => None,
    }
}

proof fn lemma_connect(c: ConnectCourse, i: int)
    requires
        c.valid(),
        0 <= i < c.jobs.len(),
    ensures
        known(c, i),
        c.actions[i] is Finish ==> c.jobs[i] is Done,
        c.actions[i] is Try ==> c.jobs[i] is Connecting,
    decreases i,
{
    if i > 0 {
        lemma_connect(c, i - 1);
        assert(c.events[i - 1].answers(c.jobs[i - 1]));
        if i > 1 {
            assert(c.events[0].answers(c.jobs[0]));
        }
        match c.jobs[i - 1] {
            ConnectJob::Connecting { transports, at, servers, .. } => {
                assert(c.transports()[at as int] == transports@[at as int]);
                if let ServerJob::Prioritizing { params } = servers {
                    let stamps = c.events[i - 1]->Server_0->Stamps_0;
                    transport::law_prioritizing_keeps_the_servers(params@, stamps@);
                }
            },
            ConnectJob::Choosing { transports, at, .. } => {
                assert(c.transports()[at as int] == transports@[at as int]);
            },
            _ => {},
        }
    }
}

/// Connecting succeeds exactly if there is a connection afterwards.
pub proof fn law_success_means_connected(c: ConnectCourse)
    requires
        c.valid(),
        c.actions.last() is Finish,
    ensures
        c.actions.last()->Finish_0 is Ok <==> c.links.last().connected,
{
    lemma_connect(c, c.jobs.len() - 1);
}

/// A connection that may not be stale is kept as it is, and nothing else is tried.
pub proof fn law_fresh_connection_is_kept(c: ConnectCourse)
    requires
        c.valid(),
        c.start.connected,
        !c.start.maybe_stale(c.now),
    ensures
        c.events.len() == 0,
        c.actions == seq![ConnectAction::Finish(Ok(()))],
        c.links.last() == c.start,
{
    if c.events.len() > 0 {
        assert(c.events[0].answers(c.jobs[0]));
    }
}

/// Whether an event is a successful login.
pub open spec fn is_login(event: ConnectEvent) -> bool {
    event matches ConnectEvent::Server(e) && e is LoggedIn
}

/// A connection that may be stale is dropped before anything else is done, and never kept: if
/// there is a connection in the end, it was made by a login during the job.
pub proof fn law_stale_connection_is_dropped(c: ConnectCourse)
    requires
        c.valid(),
        c.start.maybe_stale(c.now),
    ensures
        !c.links[0].connected,
        c.links[0].last_success is None,
        c.links.last().connected ==> exists|k: int|
            0 <= k < c.events.len() && is_login(#[trigger] c.events[k]),
{
    if c.links.last().connected {
        lemma_login(c, c.jobs.len() - 1);
    }
}

proof fn lemma_login(c: ConnectCourse, i: int)
    requires
        c.valid(),
        !c.links[0].connected,
        0 <= i < c.jobs.len(),
        c.links[i].connected,
    ensures
        exists|k: int|
            0 <= k < i && is_login(#[trigger] c.events[k]),
    decreases i,
{
    assert(i > 0);
    assert(c.events[i - 1].answers(c.jobs[i - 1]));
    if c.links[i - 1].connected {
        lemma_login(c, i - 1);
    } else {
        assert(is_login(c.events[i - 1]));
    }
}

/// After a connection was made, the remembered transport is the one that was connected to last,
/// one of those that were found, and the address to send from is its address.
pub proof fn law_connected_transport_is_remembered(c: ConnectCourse)
    requires
        c.valid(),
        c.events.len() > 0,
        c.actions.last() == ConnectAction::Finish(Ok(())),
    ensures
        current(c.jobs[c.jobs.len() - 2]) matches Some(t) && c.transports().contains(t)
            && c.links.last().transport_id == Some(t.id) && c.links.last().from == Some(
            t.param.addr@,
        ),
{
    lemma_connect(c, c.jobs.len() - 1);
}

/// A login is only tried at a server of the transport that is being connected to, with the
/// password of that transport, and while there is no connection.
pub proof fn law_servers_of_the_transport_are_tried(c: ConnectCourse, i: int)
    requires
        c.valid(),
        0 <= i < c.actions.len(),
        c.actions[i] is Try,
    ensures
        !c.links[i].connected,
        current(c.jobs[i]) matches Some(t) && c.transports().contains(t) && t.param.smtp@.contains(
            c.actions[i]->Try_server,
        ) && t.param.smtp_password@ == c.actions[i]->Try_password@,
{
    lemma_connect(c, i);
    if let ConnectJob::Connecting { transports, at, servers, .. } = c.jobs[i] {
        assert(c.transports()[at as int] == transports@[at as int]);
        if let ServerJob::Trying { search, .. } = servers {
            let smtp = transports@[at as int].param.smtp@;
            search@.servers.to_multiset_ensures();
            smtp.to_multiset_ensures();
            assert(search@.servers.contains(search@.servers[search@.tried]));
            assert(search@.servers.to_multiset().count(c.actions[i]->Try_server) > 0);
        }
    }
}

/// How many transports are left to be taken up.
pub open spec fn left_of(c: ConnectCourse, i: int) -> int {
    match c.jobs[i] {
        ConnectJob::Choosing { at, .. } => at as int,
        ConnectJob::Connecting { at, .. } => at as int,
        _ => 0,
    }
}

proof fn lemma_order(c: ConnectCourse, i: int)
    requires
        c.valid(),
        0 <= i < c.jobs.len(),
    ensures
        c.jobs[i] is Loading ==> taken_up(c.actions.take(i + 1)).len() == 0,
        c.jobs[i] is Choosing || c.jobs[i] is Connecting ==> taken_up(c.actions.take(i + 1))
            == newest(c.transports(), (c.transports().len() - left_of(c, i)) as nat),
        c.jobs[i] is Done ==> exists|n: nat|
            n <= c.transports().len() && taken_up(c.actions.take(i + 1)) == #[trigger] newest(
                c.transports(),
                n,
            ) && (c.actions[i] matches ConnectAction::Finish(Err(_)) ==> n
                == c.transports().len()),
    decreases i,
{
    lemma_connect(c, i);
    assert(c.actions.take(i + 1).last() == c.actions[i]);
    let total = c.transports().len();
    if i == 0 {
        assert(c.actions.take(1).drop_last() =~= Seq::empty());
        reveal_with_fuel(taken_up, 2);
        assert(taken_up(c.actions.take(1)) =~= newest(c.transports(), 0));
    } else {
        lemma_order(c, i - 1);
        lemma_connect(c, i - 1);
        assert(c.events[i - 1].answers(c.jobs[i - 1]));
        assert(c.actions.take(i + 1).drop_last() =~= c.actions.take(i));
        let before = taken_up(c.actions.take(i));
        let n = match c.jobs[i - 1] {
            ConnectJob::Loading => 0nat,
            _ => (total - left_of(c, i - 1)) as nat,
        };
        if c.jobs[i - 1] is Loading {
            assert(before =~= newest(c.transports(), 0));
        }
        if c.actions[i] is GetOverride {
            assert(newest(c.transports(), n + 1) =~= newest(c.transports(), n).push(
                c.transports()[total - 1 - n].param.addr@,
            ));
        }
        if c.jobs[i] is Done {
            assert(taken_up(c.actions.take(i + 1)) == newest(c.transports(), n));
        }
    }
}

/// The transports are taken up from the newest to the oldest, each at most once, and all of them
/// before connecting fails.
pub proof fn law_newest_transport_comes_first(c: ConnectCourse)
    requires
        c.valid(),
        c.actions.last() is Finish,
    ensures
        exists|n: nat|
            n <= c.transports().len() && taken_up(c.actions) == #[trigger] newest(
                c.transports(),
                n,
            ) && (c.actions.last()->Finish_0 is Err ==> n == c.transports().len()),
{
    let last = c.jobs.len() - 1;
    lemma_connect(c, last);
    lemma_order(c, last);
    assert(c.actions.take(last + 1) =~= c.actions);
}

/// A job that has no connection to use begins with loading the transports, and one that has makes
/// no other.
pub proof fn law_job_begins_with_the_transports(c: ConnectCourse)
    requires
        c.valid(),
    ensures
        c.links[0].connected <==> c.start.connected && !(c.start.last_success is Some && c.now
            - c.start.last_success->0 >= 61_000_000_000),
        c.links[0].connected ==> c.actions[0] == ConnectAction::Finish(Ok(())),
        !c.links[0].connected ==> c.actions[0] is GetTransports,
{
}

/// The last answer on whether strict checks are disabled.
pub open spec fn last_override(events: Seq<ConnectEvent>) -> Option<bool>
    decreases events.len(),
{
    if events.len() == 0 {
        None
    } else {
        match events.last() {
            ConnectEvent::Override { disable_strict_tls } => Some(disable_strict_tls),
            _ => last_override(events.drop_last()),
        }
    }
}

/// Whether there is a proxy.
pub open spec fn has_proxy(c: ConnectCourse) -> bool {
    &&& c.events.len() > 0
    &&& c.events[0] matches ConnectEvent::Transports { through_proxy, .. }
    &&& through_proxy
}

proof fn lemma_strictness(c: ConnectCourse, i: int)
    requires
        c.valid(),
        0 <= i < c.jobs.len(),
    ensures
        c.jobs[i] matches ConnectJob::Choosing { through_proxy, .. } ==> i > 0 && through_proxy
            == has_proxy(c),
        c.jobs[i] matches ConnectJob::Connecting {
            transports,
            at,
            through_proxy,
            strict_tls,
            ..
        } ==> {
            &&& i > 0
            &&& through_proxy == has_proxy(c)
            &&& last_override(c.events.take(i)) is Some
            &&& strict_tls == transports@[at as int].param.checks_strictly(
                through_proxy,
                last_override(c.events.take(i))->0,
            )
            &&& c.actions[i] matches ConnectAction::Try { strict_tls: s, .. } ==> s == strict_tls
        },
    decreases i,
{
    if i > 0 {
        lemma_connect(c, i - 1);
        lemma_strictness(c, i - 1);
        assert(c.events[i - 1].answers(c.jobs[i - 1]));
        assert(c.events.take(i).drop_last() =~= c.events.take(i - 1));
        assert(c.events.take(i).last() == c.events[i - 1]);
    }
}

/// Certificates are checked as the transport that is connected to asks for, with what is known of
/// its domain and of the proxy.
pub proof fn law_certificates_are_checked_as_configured(c: ConnectCourse, i: int)
    requires
        c.valid(),
        0 <= i < c.actions.len(),
        c.actions[i] is Try,
    ensures
        ({
            let t = current(c.jobs[i])->0;
            &&& current(c.jobs[i]) is Some
            &&& last_override(c.events.take(i)) is Some
            &&& c.actions[i]->Try_strict_tls == t.param.checks_strictly(
                has_proxy(c),
                last_override(c.events.take(i))->0,
            )
        }),
{
    lemma_connect(c, i);
    lemma_strictness(c, i);
}

/// What is asked and done on the way concerns the transport that is connected to: its domain, and
/// when its servers were connected to. A login makes the connection at its time.
pub proof fn law_steps_concern_the_transport(c: ConnectCourse, i: int)
    requires
        c.valid(),
        0 <= i < c.events.len(),
    ensures
        c.actions[i + 1] matches ConnectAction::GetStamps(list) ==> {
            &&& current(c.jobs[i + 1]) matches Some(t)
            &&& list@ == t.param.smtp@
        },
        c.events[i] matches ConnectEvent::Server(ServerEvent::LoggedIn { now }) ==> {
            &&& c.links[i + 1].connected
            &&& c.links[i + 1].last_success == Some(now)
            &&& c.actions[i + 1] is Report
            &&& c.actions[i] is Try
            &&& c.actions[i + 1]->Report_0@ == "SMTP-LOGIN as "@
                + c.actions[i]->Try_server.user@ + " ok"@
        },
        c.events[i] matches ConnectEvent::Server(ServerEvent::Failed(_)) ==> !c.links[i
            + 1].connected && !(c.actions[i + 1] is Report) && c.actions[i + 1]
            != ConnectAction::Finish(Ok(())),
        c.events[i] == ConnectEvent::Server(ServerEvent::Reported) ==> c.actions[i + 1]
            == ConnectAction::Finish(Ok(())),
{
    lemma_connect(c, i);
    lemma_connect(c, i + 1);
    lemma_users(c, i);
    assert(c.events[i].answers(c.jobs[i]));
}

proof fn lemma_users(c: ConnectCourse, i: int)
    requires
        c.valid(),
        0 <= i < c.jobs.len(),
    ensures
        c.jobs[i] matches ConnectJob::Connecting { servers: ServerJob::Trying { search, user }, .. }
            ==> user@ == search@.servers[search@.tried].user@,
    decreases i,
{
    if i > 0 {
        lemma_connect(c, i - 1);
        assert(c.events[i - 1].answers(c.jobs[i - 1]));
    }
}

/// A course of a job for the servers of one transport, from when it is known how the servers were
/// last connected to.
pub struct ServerCourse {
    pub params: Seq<ConfiguredServerLoginParam>,
    pub jobs: Seq<ServerJob>,
    pub actions: Seq<ServerAction>,
    pub links: Seq<Link>,
    pub events: Seq<ServerEvent>,
}

impl ServerCourse {
    /// The job begins with the servers, and each step is one that a job takes.
    pub open spec fn valid(self) -> bool {
        &&& self.jobs.len() == self.events.len() + 1
        &&& self.actions.len() == self.events.len() + 1
        &&& self.links.len() == self.events.len() + 1
        &&& self.jobs[0] matches ServerJob::Prioritizing { params }
        &&& params@ == self.params
        &&& self.actions[0] is GetStamps
        &&& forall|i: int| #![trigger self.events[i]]
            0 <= i < self.events.len() ==> self.events[i].answers(self.jobs[i]) && server_steps(
                self.jobs[i],
                self.links[i],
                self.events[i],
                self.jobs[i + 1],
                self.actions[i + 1],
                self.links[i + 1],
            )
    }
}

spec fn by_time(c: ServerCourse) -> Seq<ConfiguredServerLoginParam> {
    transport::prioritized(c.params, c.events[0]->Stamps_0@)
}

spec fn server_facts(c: ServerCourse, i: int) -> bool {
    match c.jobs[i] {
        ServerJob::Prioritizing { .. } => i == 0,
        ServerJob::Trying { search, user } => {
            &&& i >= 1
            &&& c.events[0] is Stamps
            &&& search@.servers == by_time(c)
            &&& search@.tried == i - 1
            &&& i - 1 < by_time(c).len()
            &&& user@ == by_time(c)[i - 1].user@
            &&& c.actions[i] == ServerAction::Try(by_time(c)[i - 1])
            &&& search@.error == if i == 1 {
                None
            } else {
                Some(c.events[1]->Failed_0@)
            }
            &&& i > 1 ==> c.events[1] is Failed
        },
        ServerJob::Reporting => i >= 2 && c.actions[i] is Report && c.events[i - 1] is LoggedIn,
        ServerJob::Done => i >= 1 && c.actions[i] is Finish,
    }
}

proof fn lemma_server_facts(c: ServerCourse, i: int)
    requires
        c.valid(),
        0 <= i < c.jobs.len(),
    ensures
        server_facts(c, i),
    decreases i,
{
    if i > 0 {
        lemma_server_facts(c, i - 1);
        assert(c.events[i - 1].answers(c.jobs[i - 1]));
    }
}

/// The servers are tried one after the other until a login succeeds, in the order of when they
/// were last connected to: the later of two comes first, one that was never connected to comes
/// after those that were, and otherwise they keep their order.
pub proof fn law_servers_are_tried_by_time(c: ServerCourse, j: int, k: int)
    requires
        c.valid(),
        0 <= j < k < c.actions.len(),
        c.actions[j] is Try,
        c.actions[k] is Try,
    ensures
        c.events[0] is Stamps,
        exists|a: int, b: int|
            0 <= a < c.params.len() && 0 <= b < c.params.len() && a != b && c.actions[j]->Try_0
                == #[trigger] c.params[a] && c.actions[k]->Try_0 == #[trigger] c.params[b]
                && match (c.events[0]->Stamps_0@[a], c.events[0]->Stamps_0@[b]) {
                (Some(x), Some(y)) => x > y || (x == y && a < b),
                (Some(_), None) => true,
                (None, Some(_)) => false,
                (None, None) => a < b,
            },
{
    lemma_server_facts(c, j);
    lemma_server_facts(c, k);
    assert(c.events[0].answers(c.jobs[0]));
    crate::order::lemma_latest_first(c.events[0]->Stamps_0@);
    transport::law_last_server_is_tried_first(c.params, c.events[0]->Stamps_0@, j - 1, k - 1);
}

/// A login makes the connection and is reported with the name of the user; nothing else does. A
/// job fails only when every server failed, with the error of the first one, or when there is no
/// server.
pub proof fn law_outcome_of_the_servers(c: ServerCourse, i: int)
    requires
        c.valid(),
        0 <= i < c.events.len(),
    ensures
        c.events[i] matches ServerEvent::LoggedIn { now } ==> {
            &&& c.actions[i] is Try
            &&& c.links[i + 1].connected
            &&& c.links[i + 1].last_success == Some(now)
            &&& c.links[i + 1].from == c.links[i].from
            &&& c.links[i + 1].transport_id == c.links[i].transport_id
            &&& c.actions[i + 1] is Report
            &&& c.actions[i + 1]->Report_0@ == "SMTP-LOGIN as "@ + c.actions[i]->Try_0.user@
                + " ok"@
        },
        !(c.events[i] is LoggedIn) ==> c.links[i + 1] == c.links[i],
        c.events[i] is Reported ==> c.actions[i + 1] == ServerAction::Finish(Ok(())),
        c.actions[i + 1] == ServerAction::Finish(Ok(())) ==> c.events[i] is Reported,
        c.actions[i + 1] matches ServerAction::Finish(Err(e)) ==> {
            &&& i == c.params.len()
            &&& i == 0 ==> e is NoCandidates
            &&& i > 0 ==> c.events[1] is Failed && (e matches SmtpError::Unreachable(text)
                && text@ == c.events[1]->Failed_0@)
        },
        i > 0 && c.events[i] is Failed && i < c.params.len() ==> c.actions[i + 1] is Try,
        i == 0 && c.params.len() > 0 ==> c.actions[1] is Try,
{
    lemma_server_facts(c, i);
    lemma_server_facts(c, i + 1);
    assert(c.events[i].answers(c.jobs[i]));
    assert(c.events[0].answers(c.jobs[0]));
    crate::order::lemma_latest_first(c.events[0]->Stamps_0@);
    assert(by_time(c).len() == c.params.len());
}

/// Connecting to the servers of a transport does nothing if there is a connection, and fails with
/// an invalid address. Otherwise the address becomes the one to send from, and it is asked when
/// the servers were last connected to.
pub proof fn law_beginning_with_the_servers(
    link: Link,
    params: Seq<ConfiguredServerLoginParam>,
    addr: Seq<char>,
    job: ServerJob,
    action: ServerAction,
    after: Link,
)
    requires
        server_begins(link, params, addr, job, action, after),
    ensures
        after.connected == link.connected,
        after.transport_id == link.transport_id,
        after.last_success == link.last_success,
        after.last_send_error == link.last_send_error,
        link.connected ==> action == ServerAction::Finish(Ok(())) && after.from == link.from,
        !link.connected && !address::valid_address(addr) ==> after.from == link.from && (
        action matches ServerAction::Finish(Err(SmtpError::InvalidAddress { quoted_addr }))
            && quoted_addr@ == text::quoted(addr)),
        !link.connected && address::valid_address(addr) ==> after.from == Some(addr) && (
        action matches ServerAction::GetStamps(list) && list@ == params) && (
        job matches ServerJob::Prioritizing { params: kept } && kept@ == params),
{
}

} // verus!
