//! Plugin store, version and path logic of the dsh desktop shell.

pub mod catalog;
pub mod clock;
pub mod commands;
pub mod error;
pub mod fetch;
pub mod install_spec;
pub mod manifest;
pub mod materialize;
pub mod node;
pub mod ops;
pub mod package;
pub mod paths;
pub mod process;
pub mod ranking;
pub mod settings;
pub mod shell;
pub mod status;
pub mod store;
pub mod text;
pub mod updates;
pub mod version;
pub mod wiring;
