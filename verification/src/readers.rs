//! Readers over a container byte image: the header decoder and the resolver.

mod default;
mod header;

pub use default::spec_bsearch;
pub use default::spec_find;
pub use default::spec_probe;
pub use default::spec_resolve;
pub use default::Model;
pub use default::SpecFind;
pub use default::ResourceReader;
pub use header::header_len;
pub use header::magic_ok;
pub use header::RCCFileHeaderReader;
