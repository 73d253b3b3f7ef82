//! A verified core for a small directory-listing tool.
//!
//! The library classifies directory entries, formats permission bits,
//! sizes, identities and timestamps, filters hidden entries, sorts by
//! display name and assembles the final plain or long-format text.
//! Terminal styling, identity lookup and calendar conversion are done
//! by outside crates behind trusted wrappers; everything else is
//! verified.

pub mod args;
pub mod entry;
pub mod identity;
pub mod listing;
pub mod numfmt;
pub mod style;
pub mod timefmt;
pub mod perms;
pub mod strutil;
