//! Verified core of an SSH terminal manager: the host vault and its
//! `~/.ssh/config` format, colour themes, pane layouts, sessions and plugins.

pub mod pane;
pub mod text;
pub mod id;
pub mod host;
pub mod ssh_config;
pub mod theme;
pub mod terminal;
pub mod session;
pub mod plugin;
pub mod update;
pub mod workspace;
pub mod panels;
pub mod connect;
pub mod icon;
pub mod config_laws;
