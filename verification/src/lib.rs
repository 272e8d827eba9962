//! Backup realm management: realms map a declarative policy (key prefix,
//! name filter, object-store credentials) onto object-store primitives and
//! expose push/pull/stat operations plus aggregated metrics over them.

pub mod args;
pub mod config;
pub mod errors;
pub mod metrics;
pub mod realms;
pub mod s3;
pub mod strutil;
