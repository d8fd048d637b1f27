//! Core of an interactive line-oriented shell: tab-completion candidate
//! enumeration and filtering, a selection-menu state machine, prompt
//! rendering, configuration defaults and merging, command planning, and
//! version comparison.
//!
//! Everything here is plain computation with contracts; the surrounding
//! program supplies environment values (directory listings, key events,
//! the clock) and performs the I/O.

pub mod cli;
pub mod commands;
pub mod completer;
pub mod config;
pub mod menu;
pub mod num;
pub mod order;
pub mod prompt;
pub mod text;
pub mod version;
