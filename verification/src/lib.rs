//! Decisions of a fleet updater for Herdr: what is current, what may be
//! updated, what is held, and why.

pub mod catalog;
pub mod cli;
pub mod clock;
pub mod completions;
pub mod config;
pub mod doctor;
pub mod duration;
pub mod exec;
pub mod fleet;
pub mod herdr;
pub mod history;
pub mod json;
pub mod location;
pub mod matching;
pub mod order;
pub mod plugins;
pub mod refcache;
pub mod schedule;
pub mod store;
pub mod sync;
pub mod text;
pub mod textmap;
pub mod version;
