//! The rules of a desktop client for frp tunnels.
//!
//! A user keeps several workspaces. Each has a configuration in TOML with any
//! number of proxies, and for every proxy a service can run: a process of one of
//! the installed runtimes. The library decides what such an application does;
//! reading files, starting processes and showing windows is left to the code
//! around it.
//!
//! - `workspace`, `settings`: which workspaces there are, and what is remembered
//!   of them.
//! - `config`, `toml_doc`: the configuration, its summary and its quick form.
//! - `service`, `status`, `launch`, `logs`: the services, what is shown and
//!   logged of them, and how they are started.
//! - `runtime`, `archive`, `release`: the runtimes, how they are taken out of
//!   archives, and which ones can be downloaded.
//! - `atomic_write`, `deletion`, `shutdown`: the order of steps that may fail.
//! - `paths`, `windows`, `clock`, `dashboard`, `error`: the rest of what the
//!   application needs.
//! - `text`, `text_map`, `decimal`: the texts and maps that all of it is stated
//!   over.

pub mod archive;
pub mod atomic_write;
pub mod clock;
pub mod config;
pub mod dashboard;
pub mod decimal;
pub mod deletion;
pub mod error;
pub mod launch;
pub mod logs;
pub mod paths;
pub mod release;
pub mod runtime;
pub mod service;
pub mod settings;
pub mod shutdown;
pub mod status;
pub mod text;
pub mod text_map;
pub mod toml_doc;
pub mod windows;
pub mod workspace;
