//! Identifies which kind of project a directory holds, by matching its
//! contents against a catalog of version definitions, and keeps external
//! catalogs mirrored locally.

pub mod versions;
pub mod config;
pub mod repositories;
pub mod args;
pub mod projects;
pub mod shell;
