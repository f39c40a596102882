//! Reconstruction of e-mail conversation threads from tabular export rows:
//! record parsing, thread grouping, reply-tree assembly and tree statistics.

pub mod msg;
pub mod strutil;
pub mod tree;
pub mod stats;
pub mod group;
pub mod dates;
pub mod history;
pub mod parser;
pub mod csvio;
pub mod imap;
pub mod processor;
pub mod laws;
