//! Supervisor of local game-server instances: the property file format, the save
//! store's rules, the per-instance output log and the instance registry.
pub mod text;
pub mod properties;
pub mod propfile;
pub mod merge_laws;
pub mod errors;
pub mod instances;
pub mod schema;
pub mod save;
pub mod naming;
pub mod buffer;
pub mod config;
pub mod requests;
pub mod versions;
