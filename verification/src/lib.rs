//! The logic of an SSH client: saved connections and their secrets, routes over
//! jump hosts and proxies, logging in, terminal sessions, remote files, transfers
//! and tunnels. What touches the network, files or the window is done by the
//! caller, step by step as the state machines here say.

pub mod asset_files;
pub mod asset_laws;
pub mod assets;
pub mod authentication;
pub mod commands;
pub mod connection_pool;
pub mod connections;
pub mod credentials;
pub mod diagnostics;
pub mod error;
pub mod jump;
pub mod keyed;
pub mod known_hosts;
pub mod lists;
pub mod models;
pub mod network;
pub mod outside;
pub mod paths;
pub mod routes;
pub mod session;
pub mod session_loop;
pub mod settings;
pub mod sftp;
pub mod socks_server;
pub mod sort;
pub mod ssh_errors;
pub mod ssh_login;
pub mod ssh_route;
pub mod terminal;
pub mod text;
pub mod transfer;
pub mod transfer_files;
pub mod transfer_job;
pub mod transfer_registry;
pub mod tunnel;
pub mod vault;
pub mod walk_laws;
