//! A file-based issue tracker: issues are files in status directories, and the
//! file name carries the issue's identifier, severity, rank and title slug.

pub mod codec;
pub mod commands;
pub mod config;
pub mod display;
pub mod error;
pub mod hook;
pub mod ident;
pub mod issue;
pub mod laws;
pub mod model;
pub mod number;
pub mod ops;
pub mod order;
pub mod paths;
pub mod prefix;
pub mod priority;
pub mod report;
pub mod severity;
pub mod slug;
pub mod split;
pub mod store;
pub mod text;
