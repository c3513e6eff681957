//! Manage multiple LLVM/Clang builds: classify remote sources by URL,
//! normalize fetched archive layouts, and resolve which installed build is
//! active for a directory through local and global marker files.

pub mod archive;
pub mod builds;
pub mod error;
pub mod resource;
pub mod text;
