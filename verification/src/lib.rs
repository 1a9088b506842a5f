//! A read-only parser and lookup engine for Qt's binary resource containers
//! (the `.rcc` format, up to format version 3).
//!
//! Given an in-memory byte image of a container, the crate exposes a virtual
//! filesystem view: a rooted tree of named directories and files, resolved on
//! demand by a hash-ordered binary search over each directory's children.

pub mod bytes;
pub mod codecs;
pub mod constants;
pub mod error;
pub mod laws;
pub mod readers;
pub mod types;
pub mod utils;
