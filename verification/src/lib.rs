//! Shell-command history: an append-only event log with deduplicated
//! reverse-chronological queries, and a per-directory registry of saved
//! procedures with an interactive picking session.

pub mod control;
pub mod error;
pub mod event;
pub mod import;
pub mod index;
pub mod names;
pub mod painter;
pub mod procedures;
pub mod query;
pub mod redraw;
pub mod render;
pub mod segment;
pub mod selection;
pub mod session;
pub mod store;
pub mod text;
