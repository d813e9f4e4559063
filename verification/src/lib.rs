//! A file explorer's core: formatting of sizes and times, the ordering of a
//! listing, the search pattern, the breadth-first directory search and the
//! state kept between user actions.

pub mod text;
pub mod format;
pub mod entry;
pub mod order;
pub mod pattern;
pub mod search;
pub mod session;
