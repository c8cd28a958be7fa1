//! A status bar daemon library: refresh requests, their wire format,
//! blocks that run commands, and the status line built from them.

pub mod block;
pub mod config;
pub mod frame;
pub mod ipc;
pub mod split;
pub mod statusbar;
pub mod text;
