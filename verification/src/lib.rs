//! Verified core of a FastDL file server: the access-rule engine, request
//! planning, path confinement, range parsing and directory listing.

pub mod text;
pub mod config;
pub mod rules;
pub mod paths;
pub mod handler;
pub mod directory;
pub mod archive;
