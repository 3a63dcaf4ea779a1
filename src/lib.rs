//! A reader for HEIF still-image containers that carry HEVC pictures: it walks
//! the ISO base media box tree, resolves items, locations and properties, and
//! decodes the HEVC parameter sets and slice segment headers of the picture.

pub mod bit;
pub mod error;
pub mod hevc;
pub mod mpeg;

mod file;

pub use error::Error;
pub use file::associated_items;
pub use file::essential_items;
pub use file::resolve_properties;
pub use file::Extents;
pub use file::Heif;
pub use file::PropertyEntry;
pub use file::ResolvedItem;
