//! sideview: the `.sv` block-document format, its renderer, and the
//! decisions around them, with contracts proved by Verus.

pub mod text;
pub mod format;
pub mod format_laws;
pub mod edit_laws;
pub mod rewrite_laws;
pub mod edit;
pub mod session;
pub mod render;
pub mod diff;
pub mod ask;
pub mod csv;
pub mod config;
pub mod ext;
pub mod funnel;
pub mod models;
pub mod store;
pub mod netcheck;
pub mod spec;
pub mod daemon;
pub mod ops;
pub mod monitor;
pub mod poll;
pub mod cli;
pub mod skill;
