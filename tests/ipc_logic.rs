use asyncdwmblocks::block::BlockRunMode;
use asyncdwmblocks::config::{Config, ConfigIpc, ConfigIpcTcp, ConfigIpcUnixDomainSocket, ServerType};
use asyncdwmblocks::frame::requests_in;
use asyncdwmblocks::ipc::request_from_args;
use asyncdwmblocks::ipc::{
    BindOutcome, BindStep, Notifier, OpaqueNotifier, OpaqueNotifierError, OpaqueServerError,
    ServerEvent, ServerSession, ServerStep, TcpNotifier, TcpNotifierError, TcpServerError,
    UdsNotifier, UdsNotifierError, UdsServerError,
};
use asyncdwmblocks::statusbar::BlockRefreshMessage;
use std::io::{Error, ErrorKind};

fn three_messages() -> Vec<BlockRefreshMessage> {
    vec![
        BlockRefreshMessage::new(String::from("cpu"), BlockRunMode::Normal),
        BlockRefreshMessage::new(String::from("memory"), BlockRunMode::Button(3)),
        BlockRefreshMessage::new(String::from("battery"), BlockRunMode::Button(1)),
    ]
}

#[test]
fn notifier_payload_reaches_server_in_order() {
    let config = Config {
        ipc: ConfigIpc {
            server_type: ServerType::Tcp,
            tcp: ConfigIpcTcp { port: 44001 },
            ..ConfigIpc::default()
        },
        ..Config::default()
    }
    .arc();
    let mut notifier = TcpNotifier::new(config);
    assert_eq!(notifier.get_port(), 44001);
    for m in three_messages() {
        notifier.push_message(m);
    }
    let payload = notifier.payload();
    assert_eq!(payload.as_slice(), b"REFRESH cpu\r\nBUTTON 3 memory\r\nBUTTON 1 battery\r\n");
    assert_eq!(requests_in(&payload), three_messages());
}

#[test]
fn empty_notifier_sends_nothing() {
    let notifier = UdsNotifier::new(Config::default().arc());
    assert_eq!(notifier.get_addr(), "/tmp/asyncdwmblocks.socket");
    assert!(notifier.payload().is_empty());
}

#[test]
fn opaque_notifier_follows_config() {
    let tcp = OpaqueNotifier::new(Config::default().arc());
    assert!(matches!(tcp, OpaqueNotifier::Tcp(_)));
    let config = Config {
        ipc: ConfigIpc {
            server_type: ServerType::UnixDomainSocket,
            ..ConfigIpc::default()
        },
        ..Config::default()
    }
    .arc();
    let mut uds = OpaqueNotifier::new(config);
    assert!(matches!(uds, OpaqueNotifier::UnixDomainSocket(_)));
    uds.push_message(BlockRefreshMessage::new(String::from("x"), BlockRunMode::Button(200)));
    assert_eq!(uds.payload(), b"BUTTON 200 x\r\n".to_vec());
}

#[test]
fn notifier_error_keeps_io_error() {
    let e = TcpNotifierError::IO(std::io::Error::new(std::io::ErrorKind::ConnectionRefused, "refused"));
    let opaque = OpaqueNotifierError::from(e);
    assert_eq!(opaque.into_io_error().kind(), std::io::ErrorKind::ConnectionRefused);
}

fn uds(force: bool, abstract_namespace: bool) -> ConfigIpcUnixDomainSocket {
    ConfigIpcUnixDomainSocket {
        addr: String::from("/tmp/x.socket"),
        force_remove_uds_file: force,
        abstract_namespace,
    }
}

#[test]
fn bound_then_shutdown_removes_socket_file() {
    let mut s = ServerSession::unix(&uds(false, false));
    assert_eq!(s.on_bind(BindOutcome::Bound), BindStep::Listen);
    assert_eq!(s.on_event(ServerEvent::Accepted), ServerStep::Serve);
    assert_eq!(s.on_event(ServerEvent::ShutdownClosed), ServerStep::Continue);
    assert_eq!(s.on_event(ServerEvent::Shutdown), ServerStep::Stop);
    assert!(s.must_remove_file());
}

#[test]
fn failed_bind_keeps_socket_file() {
    let mut s = ServerSession::unix(&uds(false, false));
    assert_eq!(s.on_bind(BindOutcome::AddrInUse), BindStep::GiveUp);
    assert!(!s.must_remove_file());
    let mut s = ServerSession::unix(&uds(true, false));
    assert_eq!(s.on_bind(BindOutcome::AddrInUse), BindStep::RemoveStaleAndRetry);
    assert_eq!(s.on_bind(BindOutcome::AddrInUse), BindStep::GiveUp);
    assert!(!s.must_remove_file());
}

#[test]
fn abstract_socket_and_tcp_remove_nothing() {
    let mut s = ServerSession::unix(&uds(true, true));
    assert_eq!(s.on_bind(BindOutcome::AddrInUse), BindStep::GiveUp);
    let mut s = ServerSession::unix(&uds(false, true));
    s.on_bind(BindOutcome::Bound);
    assert_eq!(s.on_event(ServerEvent::ShutdownLagged), ServerStep::Stop);
    assert!(!s.must_remove_file());
    let mut t = ServerSession::tcp();
    t.on_bind(BindOutcome::Bound);
    assert_eq!(t.on_event(ServerEvent::AcceptFailed), ServerStep::Fail);
    assert!(!t.must_remove_file());
}

#[test]
fn config_defaults() {
    let c = Config::default();
    assert_eq!(c.statusbar.delimiter, " ");
    assert!(c.statusbar.blocks.is_empty());
    assert_eq!(c.block.clicked_env_variable, "BUTTON");
    assert_eq!(c.ipc.server_type, ServerType::Tcp);
    assert_eq!(c.ipc.tcp.port, 44000);
    assert_eq!(c.ipc.uds.addr, "/tmp/asyncdwmblocks.socket");
    assert_eq!(ServerType::Tcp.describe(), "TCP");
    assert_eq!(ServerType::UnixDomainSocket.describe(), "Unix domain socket");
}

#[test]
fn notifier_arguments() {
    assert_eq!(
        request_from_args(String::from("cpu"), None),
        Some(BlockRefreshMessage::new(String::from("cpu"), BlockRunMode::Normal))
    );
    assert_eq!(
        request_from_args(String::from("cpu"), Some("3")),
        Some(BlockRefreshMessage::new(String::from("cpu"), BlockRunMode::Button(3)))
    );
    assert_eq!(request_from_args(String::from("cpu"), Some("300")), None);
    assert_eq!(request_from_args(String::from("cpu"), Some("x")), None);
}

#[test]
fn io_errors_come_back_out() {
    let e = TcpServerError::IO(Error::new(ErrorKind::AddrInUse, "in use"));
    assert_eq!(e.into_io_error().unwrap().kind(), ErrorKind::AddrInUse);
    let e = UdsServerError::IO(Error::new(ErrorKind::AddrInUse, "in use"));
    assert_eq!(OpaqueServerError::from(e).into_io_error().kind(), ErrorKind::AddrInUse);
    let e = TcpServerError::IO(Error::new(ErrorKind::PermissionDenied, "denied"));
    assert_eq!(OpaqueServerError::from(e).into_io_error().kind(), ErrorKind::PermissionDenied);
    let e = UdsNotifierError::IO(Error::new(ErrorKind::NotFound, "no socket"));
    assert_eq!(e.into_io_error().unwrap().kind(), ErrorKind::NotFound);
    let e = UdsNotifierError::IO(Error::new(ErrorKind::NotFound, "no socket"));
    assert_eq!(OpaqueNotifierError::from(e).into_io_error().kind(), ErrorKind::NotFound);
    let e = TcpNotifierError::IO(Error::new(ErrorKind::ConnectionRefused, "refused"));
    assert_eq!(e.into_io_error().unwrap().kind(), ErrorKind::ConnectionRefused);
}
