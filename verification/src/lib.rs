//! Build-time protocol generator: scans the source units of a project for
//! declarations tagged as belonging to a named protocol, folds them into
//! per-protocol records, and synthesizes the missing aggregate sum types and
//! the final binding declaration as one generated source artifact.

pub mod classify;
pub mod error;
pub mod laws;
pub mod lex;
pub mod meta;
pub mod outside;
pub mod pipeline;
pub mod protocol;
pub mod raw;
pub mod scan;
pub mod synth;
pub mod util;
