//! configcrab: keeps one file in sync across platform-specific locations.
//!
//! A manifest records, for each tracked file, the directory its canonical
//! copy lives in and one directory per platform it is synchronized to.
//! The library holds the manifest data model, the textual manifest format,
//! the grab and install operations, and the home-directory path-portability
//! transform. File reading and writing stay with the caller.

pub mod errors;
pub mod order;
pub mod entry;
pub mod replace;
pub mod portable;
pub mod codec;
pub mod ops;

pub use errors::CrabError;
pub use entry::Config;
pub use entry::PlatformPath;
pub use ops::CopyOp;
