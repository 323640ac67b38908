//! A sandboxed virtual filesystem: layered stores, an inode registry with a
//! path resolver, a file-descriptor table and a byte pipe.
pub mod errors;
pub mod listing;
pub mod mem_fs;
pub mod overlay_fs;
pub mod path;
pub mod pipe;
pub mod state;
pub mod vfs;
