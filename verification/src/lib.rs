//! Synchronises a local log of worked hours with a remote time-tracking service.

pub mod aggregate;
pub mod api_client;
pub mod config;
pub mod date;
pub mod entry;
pub mod hours;
pub mod index;
pub mod listing;
pub mod parse_tasks;
pub mod partial_date;
pub mod query;
pub mod rate_limit;
pub mod reconcile;
pub mod reconcile_laws;
pub mod resolve;
pub mod sync;
pub mod task_tree;
pub mod text;
pub mod types;
pub mod verbosity;
