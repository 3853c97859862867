//! A verified core for mirroring a remote file tree that is exposed through
//! HTTP directory-index pages.
//!
//! The crate holds the data model for directory listings, the freshness
//! comparator that decides whether a remote file must be fetched, the
//! exclusion policy engine, the index-page parsers for the supported server
//! dialects, the repository-format expanders, and the decision core of the
//! crawler and of the deletion pass.  Network and filesystem access stay
//! outside; callers hand in the observed values and carry out the returned
//! plans.

pub mod bytes;
pub mod compare;
pub mod extensions;
pub mod listing;
pub mod parser;
pub mod regex;
pub mod regex_process;
pub mod rematch;
pub mod sync;
pub mod timestamp;
pub mod utils;
pub mod web;

pub use listing::{FileSize, FileType, ListItem, NaiveDateTime, SizeUnit};
