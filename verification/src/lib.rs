//! Verified core of an SSH workspace.

pub mod auth;
pub mod connect;
pub mod files;
pub mod fonts;
pub mod hosts;
pub mod known_hosts;
pub mod order;
pub mod paths;
pub mod progress;
pub mod pump;
pub mod recording;
pub mod secrets;
pub mod serial;
pub mod sessions;
pub mod sftp;
pub mod socks;
pub mod splice;
pub mod ssh;
pub mod ssh_config;
pub mod text;
pub mod transfer;
pub mod tunnels;
pub mod vault;
pub mod waits;
pub mod x11;
