//! The logical entities of the virtual filesystem: flags, compression tags,
//! locale codes, timestamps, and the directory and file views over records.

mod compression;
mod dir;
mod file;
mod flags;
mod locale;
pub mod record;
mod resource;

pub use compression::spec_compression_of;
pub use compression::CompressionAlgorithm;
pub use dir::spec_children_walk;
pub use dir::ResourceDirectory;
pub use file::millis_in_datetime_range;
pub use file::spec_raw_data;
pub use file::spec_size;
pub use file::wrap_i64;
pub use file::ResourceData;
pub use file::ResourceFile;
pub use flags::ResourceFlags;
pub use locale::Language;
pub use locale::Territory;
pub use locale::Timestamp;
pub use resource::resource_matches;
pub use resource::Resource;
