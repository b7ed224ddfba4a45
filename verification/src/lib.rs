//! Verified core of a Firebase Remote Config editing tool.
//!
//! The library owns the remote-config data model (conditions, parameters,
//! parameter groups), the condition-expression compiler, app-id substitution
//! for cross-project propagation, the generational condition propagator, and
//! the pure decision logic of the command flows. Network transport, terminal
//! interaction and file storage live outside the library and exchange plain
//! values with it.
pub mod add_command;
pub mod cli;
pub mod command;
pub mod config;
pub mod delete_command;
pub mod editor;
pub mod entry_map;
pub mod error;
pub mod expression_builder;
pub mod io;
pub mod migrate_command;
pub mod move_out_command;
pub mod move_to_command;
pub mod network;
pub mod operator;
pub mod parameter_builder;
pub mod remote_config;
pub mod strings;
pub mod update_command;
