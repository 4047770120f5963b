//! Command-line logic of the reVault lockbox tool: argument pre-processing,
//! path and glob rules, rendering of messages and tables, access entries,
//! mirror projects and plans, and the binary table and record formats used
//! while mirroring host directories.

pub mod text;
pub mod completion;
pub mod paths;
pub mod messages;
pub mod glob;
pub mod files;
pub mod forms;
pub mod args;
pub mod output;
pub mod variables;
pub mod keys;
pub mod vault;
pub mod records;
pub mod mirror;
pub mod index;
pub mod migrate;
pub mod session;
pub mod recovery;
pub mod context;
pub mod access;
pub mod table;
pub mod projects;
pub mod opening;
pub mod removal;
pub mod digest;
pub mod mirror_run;
pub mod migration_run;
pub mod source_check;
pub mod duration_laws;
