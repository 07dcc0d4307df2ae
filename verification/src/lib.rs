//! A verified core for a local music library: the library's tables and the
//! queries over them, duplicate detection during import, metadata defaults,
//! and the download command builder.

pub mod acquire;
pub mod db;
pub mod groups;
pub mod import;
pub mod import_laws;
pub mod laws;
pub mod like;
pub mod listing_laws;
pub mod locations;
pub mod metadata;
pub mod models;
pub mod order;
pub mod paths;
pub mod queries;
pub mod scanner;
pub mod seq_facts;
pub mod text;
