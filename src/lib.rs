//! The incremental core of a parser-combinator toolkit: a source that fills a
//! token buffer on demand from a byte provider and drives a parsing function
//! over it with a retry / incomplete protocol, and a driver that applies a
//! parsing function repeatedly over an in-memory cursor.

pub mod input;
pub mod provider;
pub mod source;
pub mod iter;
