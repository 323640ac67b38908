//! The state of a guest's filesystem: inodes, descriptors, preopened
//! directories and the walk along a path.
pub mod ancestry;
pub mod circles;
pub mod close;
pub mod entries;
pub mod fd;
pub mod fs;
pub mod inodes;
pub mod open;
pub mod paths;
pub mod preopen;
pub mod resolve;
pub mod root;
pub mod types;
