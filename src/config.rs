//! Configuration of the status bar, its blocks and the IPC transport.

use std::sync::Arc;
use vstd::prelude::*;
use vstd::string::StringExecFns;

verus! {

/// Which transport the IPC server and notifier use.
#[derive(Debug, PartialEq, Eq, Structural, Copy, Clone)]
pub enum ServerType {
    /// A TCP socket on localhost.
    Tcp,
    /// A Unix domain socket.
    UnixDomainSocket,
}

impl ServerType {
    /// A human-readable name of the transport.
    pub fn describe(&self) -> (r: &'static str)
        ensures
            r@ == (match self {
                ServerType::Tcp => "TCP"@,
                ServerType::UnixDomainSocket => "Unix domain socket"@,
            }),
    {
        match self {
            ServerType::Tcp => "TCP",
            ServerType::UnixDomainSocket => "Unix domain socket",
        }
    }
}

/// One block of the status bar, as configured.
#[derive(Debug, PartialEq, Clone)]
pub struct ConfigStatusBarBlock {
    /// The block's name (its id).
    pub name: String,
    /// The command to run.
    pub command: String,
    /// The command's arguments.
    pub args: Vec<String>,
    /// Seconds between refreshes, if the block refreshes on its own.
    pub interval: Option<u64>,
}

/// Configuration of the status bar.
#[derive(Debug, PartialEq, Clone)]
pub struct ConfigStatusBar {
    /// Put between the outputs of adjacent blocks.
    pub delimiter: String,
    /// The blocks, in display order.
    pub blocks: Vec<ConfigStatusBarBlock>,
}

/// Configuration shared by all blocks.
#[derive(Debug, PartialEq, Clone)]
pub struct ConfigBlock {
    /// The environment variable that tells a command which button clicked it.
    pub clicked_env_variable: String,
}

/// Configuration of the TCP server and notifier.
#[derive(Debug, PartialEq, Eq, Structural, Copy, Clone)]
pub struct ConfigIpcTcp {
    /// The localhost port to listen on or connect to.
    pub port: u16,
}

/// Configuration of the Unix domain socket server and notifier.
#[derive(Debug, PartialEq, Clone)]
pub struct ConfigIpcUnixDomainSocket {
    /// The socket's path.
    pub addr: String,
    /// Remove a stale socket file when binding finds the address in use.
    pub force_remove_uds_file: bool,
    /// The socket lives in the Linux abstract namespace (no file on disk).
    pub abstract_namespace: bool,
}

/// Configuration of inter-process communication.
#[derive(Debug, PartialEq, Clone)]
pub struct ConfigIpc {
    /// The transport in use.
    pub server_type: ServerType,
    /// TCP settings.
    pub tcp: ConfigIpcTcp,
    /// Unix domain socket settings.
    pub uds: ConfigIpcUnixDomainSocket,
}

/// The whole configuration.
#[derive(Debug, PartialEq, Clone)]
pub struct Config {
    /// Status bar settings.
    pub statusbar: ConfigStatusBar,
    /// Block settings.
    pub block: ConfigBlock,
    /// IPC settings.
    pub ipc: ConfigIpc,
}

/// The blocks of the built-in configuration: none.
pub fn default_statusbar_blocks() -> (r: Vec<ConfigStatusBarBlock>)
    ensures
        r@.len() == 0,
{
    Vec::new()
}

impl Default for ConfigStatusBar {
    fn default() -> (r: Self)
        ensures
            r.delimiter@ == " "@,
            r.blocks@.len() == 0,
    {
        ConfigStatusBar { delimiter: String::from_str(" "), blocks: default_statusbar_blocks() }
    }
}

impl Default for ConfigBlock {
    fn default() -> (r: Self)
        ensures
            r.clicked_env_variable@ == "BUTTON"@,
    {
        ConfigBlock { clicked_env_variable: String::from_str("BUTTON") }
    }
}

impl Default for ConfigIpcTcp {
    fn default() -> (r: Self)
        ensures
            r.port == 44000,
    {
        ConfigIpcTcp { port: 44000 }
    }
}

impl Default for ConfigIpcUnixDomainSocket {
    fn default() -> (r: Self)
        ensures
            r.addr@ == "/tmp/asyncdwmblocks.socket"@,
            !r.force_remove_uds_file,
            !r.abstract_namespace,
    {
        ConfigIpcUnixDomainSocket {
            addr: String::from_str("/tmp/asyncdwmblocks.socket"),
            force_remove_uds_file: false,
            abstract_namespace: false,
        }
    }
}

impl Default for ConfigIpc {
    fn default() -> (r: Self)
        ensures
            r.server_type == ServerType::Tcp,
            r.tcp.port == 44000,
            r.uds.addr@ == "/tmp/asyncdwmblocks.socket"@,
            !r.uds.force_remove_uds_file,
            !r.uds.abstract_namespace,
    {
        ConfigIpc {
            server_type: ServerType::Tcp,
            tcp: ConfigIpcTcp::default(),
            uds: ConfigIpcUnixDomainSocket::default(),
        }
    }
}

impl Default for Config {
    fn default() -> (r: Self)
        ensures
            r.statusbar.delimiter@ == " "@,
            r.statusbar.blocks@.len() == 0,
            r.block.clicked_env_variable@ == "BUTTON"@,
            r.ipc.server_type == ServerType::Tcp,
            r.ipc.tcp.port == 44000,
            r.ipc.uds.addr@ == "/tmp/asyncdwmblocks.socket"@,
            !r.ipc.uds.force_remove_uds_file,
            !r.ipc.uds.abstract_namespace,
    {
        Config {
            statusbar: ConfigStatusBar::default(),
            block: ConfigBlock::default(),
            ipc: ConfigIpc::default(),
        }
    }
}

impl Config {
    /// Wraps the configuration in an [`Arc`], to share it between tasks.
    pub fn arc(self) -> (r: Arc<Self>)
        ensures
            r == self,
    {
        Arc::new(self)
    }
}

} // verus!
