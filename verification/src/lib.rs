//! The logic of a terminal log viewer: reading log lines into events, keeping
//! a bounded buffer of them, filtering, grouping and presenting them.
pub mod app;
pub mod buffer;
pub mod cli;
pub mod commands;
pub mod config;
pub mod facet;
pub mod filter;
pub mod keys;
pub mod model;
pub mod page_log;
pub mod path;
pub mod perf;
pub mod recording;
pub mod runtime;
pub mod sort;
pub mod table;
pub mod text;
pub mod ui;
