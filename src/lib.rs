//! Catalog watcher library: extracts product facts from embedded page data,
//! keeps the ledger of announced listings, and formats announcements.

pub mod text;
pub mod json;
pub mod product;
pub mod ledger;
pub mod embed;
pub mod sync;
