//! Inter-process communication: the notifiers that send refresh requests,
//! and the decisions of the servers that receive them.

use crate::block::BlockRunMode;
use crate::config::{Config, ConfigIpcUnixDomainSocket, ServerType};
use crate::frame::{decode_all, encode_all, encode_messages, law_requests_arrive, requests_of, valid_request};
use crate::text::{parse_byte, parse_u8};
use crate::statusbar::BlockRefreshMessage;
use std::sync::Arc;
use vstd::prelude::*;

verus! {

/// The most bytes a server reads from one connection.
pub const READ_BUFFER_SIZE: usize = 1024;

/// The bytes that carry the requests `ms`, one after another.
pub open spec fn payload_of(ms: Seq<(Seq<char>, BlockRunMode)>) -> Seq<u8> {
    encode_all(ms.map_values(|m: (Seq<char>, BlockRunMode)| Some(m)))
}

/// A client that collects refresh requests and then sends them all at once.
pub trait Notifier {
    /// The requests collected so far, in order.
    spec fn pending(&self) -> Seq<(Seq<char>, BlockRunMode)>;

    /// Adds a request to send.
    fn push_message(&mut self, message: BlockRefreshMessage)
        ensures
            final(self).pending() == old(self).pending().push(message@),
    ;

    /// The bytes to send: every collected request, encoded, in order.
    fn payload(&self) -> (r: Vec<u8>)
        ensures
            r@ == payload_of(self.pending()),
    ;
}

/// Why a TCP notifier failed.
#[derive(Debug)]
pub enum TcpNotifierError {
    /// Connecting or writing failed.
    IO(std::io::Error),
}

impl TcpNotifierError {
    /// The underlying I/O error.
    pub fn into_io_error(self) -> (r: Option<std::io::Error>)
        ensures
            self matches TcpNotifierError::IO(e) ==> r == Some(e),
    {
        match self {
            TcpNotifierError::IO(e) => Some(e),
        }
    }
}

/// Why a Unix domain socket notifier failed.
#[derive(Debug)]
pub enum UdsNotifierError {
    /// Connecting or writing failed.
    IO(std::io::Error),
}

impl UdsNotifierError {
    /// The underlying I/O error.
    pub fn into_io_error(self) -> (r: Option<std::io::Error>)
        ensures
            self matches UdsNotifierError::IO(e) ==> r == Some(e),
    {
        match self {
            UdsNotifierError::IO(e) => Some(e),
        }
    }
}

/// Why a TCP server stopped with an error.
#[derive(Debug)]
pub enum TcpServerError {
    /// Binding or accepting failed.
    IO(std::io::Error),
}

impl TcpServerError {
    /// The underlying I/O error.
    pub fn into_io_error(self) -> (r: Option<std::io::Error>)
        ensures
            self matches TcpServerError::IO(e) ==> r == Some(e),
    {
        match self {
            TcpServerError::IO(e) => Some(e),
        }
    }
}

/// Why a Unix domain socket server stopped with an error.
#[derive(Debug)]
pub enum UdsServerError {
    /// Binding or accepting failed.
    IO(std::io::Error),
}

impl UdsServerError {
    /// The underlying I/O error.
    pub fn into_io_error(self) -> (r: Option<std::io::Error>)
        ensures
            self matches UdsServerError::IO(e) ==> r == Some(e),
    {
        match self {
            UdsServerError::IO(e) => Some(e),
        }
    }
}

/// The error of a server of either transport.
#[derive(Debug)]
pub struct OpaqueServerError {
    error: std::io::Error,
}

impl OpaqueServerError {
    /// The underlying I/O error.
    pub closed spec fn io_error(&self) -> std::io::Error {
        self.error
    }

    /// The underlying I/O error.
    pub fn into_io_error(self) -> (r: std::io::Error)
        ensures
            r == self.io_error(),
    {
        self.error
    }
}

impl vstd::std_specs::convert::FromSpecImpl<TcpServerError> for OpaqueServerError {
    open spec fn obeys_from_spec() -> bool {
        true
    }

    closed spec fn from_spec(err: TcpServerError) -> OpaqueServerError {
        match err {
            TcpServerError::IO(error) => OpaqueServerError { error },
        }
    }
}

impl From<TcpServerError> for OpaqueServerError {
    fn from(err: TcpServerError) -> Self {
        match err {
            TcpServerError::IO(error) => OpaqueServerError { error },
        }
    }
}

impl vstd::std_specs::convert::FromSpecImpl<UdsServerError> for OpaqueServerError {
    open spec fn obeys_from_spec() -> bool {
        true
    }

    closed spec fn from_spec(err: UdsServerError) -> OpaqueServerError {
        match err {
            UdsServerError::IO(error) => OpaqueServerError { error },
        }
    }
}

impl From<UdsServerError> for OpaqueServerError {
    fn from(err: UdsServerError) -> Self {
        match err {
            UdsServerError::IO(error) => OpaqueServerError { error },
        }
    }
}

/// The error of a notifier of either transport.
#[derive(Debug)]
pub struct OpaqueNotifierError {
    error: std::io::Error,
}

impl OpaqueNotifierError {
    /// The underlying I/O error.
    pub closed spec fn io_error(&self) -> std::io::Error {
        self.error
    }

    /// The underlying I/O error.
    pub fn into_io_error(self) -> (r: std::io::Error)
        ensures
            r == self.io_error(),
    {
        self.error
    }
}

impl vstd::std_specs::convert::FromSpecImpl<TcpNotifierError> for OpaqueNotifierError {
    open spec fn obeys_from_spec() -> bool {
        true
    }

    closed spec fn from_spec(err: TcpNotifierError) -> OpaqueNotifierError {
        match err {
            TcpNotifierError::IO(error) => OpaqueNotifierError { error },
        }
    }
}

impl From<TcpNotifierError> for OpaqueNotifierError {
    fn from(err: TcpNotifierError) -> Self {
        match err {
            TcpNotifierError::IO(error) => OpaqueNotifierError { error },
        }
    }
}

impl vstd::std_specs::convert::FromSpecImpl<UdsNotifierError> for OpaqueNotifierError {
    open spec fn obeys_from_spec() -> bool {
        true
    }

    closed spec fn from_spec(err: UdsNotifierError) -> OpaqueNotifierError {
        match err {
            UdsNotifierError::IO(error) => OpaqueNotifierError { error },
        }
    }
}

impl From<UdsNotifierError> for OpaqueNotifierError {
    fn from(err: UdsNotifierError) -> Self {
        match err {
            UdsNotifierError::IO(error) => OpaqueNotifierError { error },
        }
    }
}

/// A notifier that sends to the TCP server on localhost.
#[derive(Debug, PartialEq, Clone)]
pub struct TcpNotifier {
    config: Arc<Config>,
    buff: Vec<BlockRefreshMessage>,
}

impl TcpNotifier {
    /// A notifier with nothing collected, for the configured port.
    pub fn new(config: Arc<Config>) -> (r: Self)
        ensures
            r.pending().len() == 0,
            r.port() == config.ipc.tcp.port,
    {
        TcpNotifier { config, buff: Vec::new() }
    }

    /// The port to connect to.
    pub closed spec fn port(&self) -> u16 {
        self.config.ipc.tcp.port
    }

    /// The port to connect to.
    pub fn get_port(&self) -> (r: u16)
        ensures
            r == self.port(),
    {
        self.config.ipc.tcp.port
    }
}

impl Notifier for TcpNotifier {
    closed spec fn pending(&self) -> Seq<(Seq<char>, BlockRunMode)> {
        self.buff@.map_values(|m: BlockRefreshMessage| m@)
    }

    fn push_message(&mut self, message: BlockRefreshMessage) {
        self.buff.push(message);
        assert(self.pending() =~= old(self).pending().push(message@));
    }

    fn payload(&self) -> (r: Vec<u8>) {
        assert(self.pending().map_values(|m: (Seq<char>, BlockRunMode)| Some(m))
            =~= self.buff@.map_values(|m: BlockRefreshMessage| Some(m@)));
        encode_messages(&self.buff)
    }
}

/// A notifier that sends to the Unix domain socket server.
#[derive(Debug, PartialEq, Clone)]
pub struct UdsNotifier {
    config: Arc<Config>,
    buff: Vec<BlockRefreshMessage>,
}

impl UdsNotifier {
    /// A notifier with nothing collected, for the configured socket.
    pub fn new(config: Arc<Config>) -> (r: Self)
        ensures
            r.pending().len() == 0,
            r.addr() == config.ipc.uds.addr@,
    {
        UdsNotifier { config, buff: Vec::new() }
    }

    /// The socket's path.
    pub closed spec fn addr(&self) -> Seq<char> {
        self.config.ipc.uds.addr@
    }

    /// The socket's path.
    pub fn get_addr(&self) -> (r: &String)
        ensures
            r@ == self.addr(),
    {
        &self.config.ipc.uds.addr
    }
}

impl Notifier for UdsNotifier {
    closed spec fn pending(&self) -> Seq<(Seq<char>, BlockRunMode)> {
        self.buff@.map_values(|m: BlockRefreshMessage| m@)
    }

    fn push_message(&mut self, message: BlockRefreshMessage) {
        self.buff.push(message);
        assert(self.pending() =~= old(self).pending().push(message@));
    }

    fn payload(&self) -> (r: Vec<u8>) {
        assert(self.pending().map_values(|m: (Seq<char>, BlockRunMode)| Some(m))
            =~= self.buff@.map_values(|m: BlockRefreshMessage| Some(m@)));
        encode_messages(&self.buff)
    }
}

/// A notifier of the configured transport.
#[derive(Debug, PartialEq, Clone)]
pub enum OpaqueNotifier {
    /// Over TCP.
    Tcp(TcpNotifier),
    /// Over a Unix domain socket.
    UnixDomainSocket(UdsNotifier),
}

impl OpaqueNotifier {
    /// A notifier with nothing collected, of the transport that the configuration names.
    pub fn new(config: Arc<Config>) -> (r: Self)
        ensures
            r.pending().len() == 0,
            config.ipc.server_type is Tcp ==> (r matches OpaqueNotifier::Tcp(n) && n.port()
                == config.ipc.tcp.port),
            config.ipc.server_type is UnixDomainSocket ==> (r matches OpaqueNotifier::UnixDomainSocket(
                n,
            ) && n.addr() == config.ipc.uds.addr@),
    {
        match config.ipc.server_type {
            ServerType::Tcp => OpaqueNotifier::Tcp(TcpNotifier::new(config)),
            ServerType::UnixDomainSocket => OpaqueNotifier::UnixDomainSocket(UdsNotifier::new(config)),
        }
    }
}

impl Notifier for OpaqueNotifier {
    closed spec fn pending(&self) -> Seq<(Seq<char>, BlockRunMode)> {
        match self {
            OpaqueNotifier::Tcp(n) => n.pending(),
            OpaqueNotifier::UnixDomainSocket(n) => n.pending(),
        }
    }

    fn push_message(&mut self, message: BlockRefreshMessage) {
        match self {
            OpaqueNotifier::Tcp(n) => n.push_message(message),
            OpaqueNotifier::UnixDomainSocket(n) => n.push_message(message),
        }
    }

    fn payload(&self) -> (r: Vec<u8>) {
        match self {
            OpaqueNotifier::Tcp(n) => n.payload(),
            OpaqueNotifier::UnixDomainSocket(n) => n.payload(),
        }
    }
}


/// What binding the listening socket gave.
#[derive(Debug, PartialEq, Eq, Structural, Copy, Clone)]
pub enum BindOutcome {
    /// The socket is bound.
    Bound,
    /// The address is in use.
    AddrInUse,
    /// Binding failed for another reason.
    Failed,
}

/// What to do after an attempt to bind.
#[derive(Debug, PartialEq, Eq, Structural, Copy, Clone)]
pub enum BindStep {
    /// Start accepting connections.
    Listen,
    /// Remove the stale socket file and bind once more.
    RemoveStaleAndRetry,
    /// Give up and report the error.
    GiveUp,
}

/// An event of a server's accept loop.
#[derive(Debug, PartialEq, Eq, Structural, Copy, Clone)]
pub enum ServerEvent {
    /// A connection came in.
    Accepted,
    /// Accepting a connection failed.
    AcceptFailed,
    /// A connection handler found that nobody takes requests any more.
    Cancelled,
    /// The shutdown signal came.
    Shutdown,
    /// The shutdown channel lagged: a signal was missed.
    ShutdownLagged,
    /// The shutdown channel closed without a signal.
    ShutdownClosed,
}

/// What the accept loop does on an event.
#[derive(Debug, PartialEq, Eq, Structural, Copy, Clone)]
pub enum ServerStep {
    /// Hand the connection to a new handler, then go on.
    Serve,
    /// Go on waiting.
    Continue,
    /// Stop cleanly.
    Stop,
    /// Stop and report the error.
    Fail,
}

/// The life of one server run: how it binds, when it stops, and whether its
/// socket file must be removed when it ends.
#[derive(Debug, PartialEq, Eq, Structural, Copy, Clone)]
pub struct ServerSession {
    /// The server uses a Unix domain socket.
    pub unix: bool,
    /// A stale socket file may be removed when the address is in use.
    pub remove_stale: bool,
    /// The socket is in the abstract namespace (no file on disk).
    pub abstract_namespace: bool,
    /// The socket was bound.
    pub bound: bool,
    /// A second bind was tried.
    pub retried: bool,
    /// The run is over.
    pub finished: bool,
}

/// The session and step after a bind attempt gave `o`.
pub open spec fn after_bind(s: ServerSession, o: BindOutcome) -> (ServerSession, BindStep) {
    match o {
        BindOutcome::Bound => (ServerSession { bound: true, ..s }, BindStep::Listen),
        BindOutcome::AddrInUse => if s.unix && s.remove_stale && !s.abstract_namespace
            && !s.retried {
            (ServerSession { retried: true, ..s }, BindStep::RemoveStaleAndRetry)
        } else {
            (ServerSession { finished: true, ..s }, BindStep::GiveUp)
        },
        BindOutcome::Failed => (ServerSession { finished: true, ..s }, BindStep::GiveUp),
    }
}

/// The session and step after the event `e` of the accept loop.
pub open spec fn after_event(s: ServerSession, e: ServerEvent) -> (ServerSession, ServerStep) {
    match e {
        ServerEvent::Accepted => (s, ServerStep::Serve),
        ServerEvent::AcceptFailed => (ServerSession { finished: true, ..s }, ServerStep::Fail),
        ServerEvent::ShutdownClosed => (s, ServerStep::Continue),
        _ => (ServerSession { finished: true, ..s }, ServerStep::Stop),
    }
}

/// Whether the socket file must be removed when the run ends: only a Unix
/// domain socket that this run bound, outside the abstract namespace.
pub open spec fn removes_file(s: ServerSession) -> bool {
    s.unix && s.bound && !s.abstract_namespace
}

impl ServerSession {
    /// A session of a TCP server, before binding.
    pub fn tcp() -> (r: Self)
        ensures
            !r.unix && !r.bound && !r.retried && !r.finished,
    {
        ServerSession {
            unix: false,
            remove_stale: false,
            abstract_namespace: false,
            bound: false,
            retried: false,
            finished: false,
        }
    }

    /// A session of a Unix domain socket server, before binding.
    pub fn unix(config: &ConfigIpcUnixDomainSocket) -> (r: Self)
        ensures
            r.unix && !r.bound && !r.retried && !r.finished,
            r.remove_stale == config.force_remove_uds_file,
            r.abstract_namespace == config.abstract_namespace,
    {
        ServerSession {
            unix: true,
            remove_stale: config.force_remove_uds_file,
            abstract_namespace: config.abstract_namespace,
            bound: false,
            retried: false,
            finished: false,
        }
    }

    /// Takes in what a bind attempt gave and says what to do next. An
    /// address in use is retried once, after removing the stale file, when
    /// so configured for a socket file; any other failure gives up.
    pub fn on_bind(&mut self, outcome: BindOutcome) -> (r: BindStep)
        ensures
            (*final(self), r) == after_bind(*old(self), outcome),
    {
        match outcome {
            BindOutcome::Bound => {
                self.bound = true;
                BindStep::Listen
            },
            BindOutcome::AddrInUse => {
                if self.unix && self.remove_stale && !self.abstract_namespace && !self.retried {
                    self.retried = true;
                    BindStep::RemoveStaleAndRetry
                } else {
                    self.finished = true;
                    BindStep::GiveUp
                }
            },
            BindOutcome::Failed => {
                self.finished = true;
                BindStep::GiveUp
            },
        }
    }

    /// Takes in an event of the accept loop and says what to do. A missed
    /// shutdown signal counts as a shutdown; a closed shutdown channel is
    /// ignored.
    pub fn on_event(&mut self, event: ServerEvent) -> (r: ServerStep)
        ensures
            (*final(self), r) == after_event(*old(self), event),
    {
        match event {
            ServerEvent::Accepted => ServerStep::Serve,
            ServerEvent::AcceptFailed => {
                self.finished = true;
                ServerStep::Fail
            },
            ServerEvent::ShutdownClosed => ServerStep::Continue,
            ServerEvent::Cancelled | ServerEvent::Shutdown | ServerEvent::ShutdownLagged => {
                self.finished = true;
                ServerStep::Stop
            },
        }
    }

    /// Whether the socket file must be removed now that the run ends.
    pub fn must_remove_file(&self) -> (r: bool)
        ensures
            r == removes_file(*self),
    {
        self.unix && self.bound && !self.abstract_namespace
    }
}

/// A Unix domain socket server (with a socket file) that binds and is then
/// shut down removes its socket file. One that never binds removes no file
/// when it ends, and touches an existing file only where removing stale files
/// is configured.
pub proof fn law_socket_cleanup(s0: ServerSession, o: BindOutcome, e: ServerEvent)
    requires
        s0.unix,
        !s0.abstract_namespace,
        !s0.bound,
        !s0.retried,
        !s0.finished,
    ensures
        ({
            let (s1, b1) = after_bind(s0, BindOutcome::Bound);
            let (s2, st) = after_event(s1, ServerEvent::Shutdown);
            b1 == BindStep::Listen && st == ServerStep::Stop && s2.finished && removes_file(s2)
        }),
        o != BindOutcome::Bound ==> {
            let (s1, _) = after_bind(s0, o);
            let (s2, _) = after_event(s1, e);
            !removes_file(s1) && !removes_file(s2)
        },
        o != BindOutcome::Bound ==> {
            let (s1, _) = after_bind(s0, o);
            let (s2, b2) = after_bind(s1, o);
            !removes_file(s1) && !removes_file(s2) && b2 == BindStep::GiveUp
        },
        !s0.remove_stale ==> after_bind(s0, o).1 != BindStep::RemoveStaleAndRetry,
{
}

/// Whatever a notifier collected, as long as every request names one word,
/// is what a server finds in the notifier's bytes, in the same order.
pub proof fn law_notifier_to_server<N: Notifier>(n: N)
    requires
        forall|i: int| 0 <= i < n.pending().len() ==> valid_request(#[trigger] n.pending()[i]),
    ensures
        requests_of(decode_all(payload_of(n.pending()))) == n.pending(),
{
    law_requests_arrive(n.pending());
}

/// The request that a notifier's command line asks for: refresh `block`,
/// as if clicked with `button` when one is given. `None` when the button is
/// not a number from 0 to 255.
pub fn request_from_args(block: String, button: Option<&str>) -> (r: Option<BlockRefreshMessage>)
    ensures
        button is None ==> (r matches Some(m) && m@ == (block@, BlockRunMode::Normal)),
        button matches Some(b) ==> (r is Some <==> parse_u8(b@) is Some),
        button matches Some(b) ==> (r matches Some(m) ==> m@ == (block@, BlockRunMode::Button(
            parse_u8(b@)->0,
        ))),
{
    match button {
        None => Some(BlockRefreshMessage::new(block, BlockRunMode::Normal)),
        Some(b) => match parse_byte(b) {
            Some(n) => Some(BlockRefreshMessage::new(block, BlockRunMode::Button(n))),
            None => None,
        },
    }
}

} // verus!
