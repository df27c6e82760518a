//! A verified filesystem-tree scanner core.
//!
//! The library builds an in-memory tree of files and directories from a
//! description of directory listings, recomputes cumulative directory sizes
//! bottom-up, and serializes the finished tree to a JSON document with a
//! fixed schema. All filesystem access stays outside the library: callers
//! enumerate directories and hand the result in as plain values.

pub mod aggregate;
pub mod builder;
pub mod item;
pub mod json;
pub mod render;
pub mod report;
pub mod text;

pub use item::DirectoryItem;
pub use item::FileItem;
pub use item::FileSystemItem;
