//! Core logic of an SSH host launcher: extraction of host names from SSH
//! configuration artifacts, a tiered fuzzy-search engine over the extracted
//! hosts, and the pure state machines of the surrounding user interface.

pub mod app;
pub mod config;
pub mod events;
pub mod fuzzy;
pub mod host_list;
pub mod launcher;
pub mod order;
pub mod parser;
pub mod rank;
pub mod search;
pub mod search_input;
pub mod text;
