//! Reader for `.drs` resource archives, the container format of the Genie Engine.
//!
//! An archive starts with a 64-byte header, followed by a directory of 12-byte
//! table descriptors, one per resource type, and then, table after table, the
//! 12-byte dictionary entries that locate each resource's content. The archive
//! index is parsed once from the directory bytes alone; resources are then looked
//! up by type tag and id, and each entry gives the offset and size at which the
//! caller reads the content from the stream.

mod bytes;
pub mod model;
pub mod archive;
pub mod laws;

pub use archive::{DRSHeader, DRSTable, DRSResource, DRS};
pub use model::Error;
