//! Session persistence for Hyprland: the decisions of the restore engine, the
//! compositor plugin and the command line, without any input or output.

pub mod cli;
pub mod client;
pub mod command;
pub mod history;
pub mod messages;
pub mod models;
pub mod plan;
pub mod plugin;
pub mod progress;
pub mod protocol;
pub mod replies;
pub mod requests;
pub mod restore;
pub mod run;
pub mod steps;
pub mod text;
pub mod watch;
