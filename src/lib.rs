//! Reading and ordering package version identifiers, and reading the version fields of a
//! package metadata document.

pub mod digits;
pub mod local;
pub mod metadata;
pub mod order;
pub mod parse;
pub mod version;

pub use metadata::{get_metadata_attribute, parse_metadata, Metadata};
pub use parse::parse_version;
pub use version::{Error, PreReleaseType, Version};
