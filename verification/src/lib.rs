//! Canonical lookup keys for wiki page titles, and the rules by which a
//! stream of entity records becomes a table from those keys to entity
//! identifiers.

pub mod assoc;
pub mod blank;
pub mod entity;
pub mod fold;
pub mod ingest;
pub mod key;
pub mod publish;
pub mod reader;
pub mod record;
pub mod release;
pub mod sitekey;
pub mod store;
pub mod text;
pub mod turkic;
