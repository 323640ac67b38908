//! The plain values of the guest interface: rights, flags and stats.
use vstd::prelude::*;

verus! {

/// The descriptor of standard input.
pub const STDIN_FILENO: u32 = 0;

/// The descriptor of standard output.
pub const STDOUT_FILENO: u32 = 1;

/// The descriptor of standard error.
pub const STDERR_FILENO: u32 = 2;

/// The descriptor of the virtual root.
pub const VIRTUAL_ROOT_FD: u32 = 3;

/// Largest number of link targets put in the place of links while one path
/// is resolved.
pub const MAX_SYMLINKS: u32 = 128;

/// The first inode number that is given out.
pub const FIRST_INODE_NUMBER: u64 = 1024;

pub const FD_DATASYNC: u64 = 0x1;

pub const FD_READ: u64 = 0x2;

pub const FD_SEEK: u64 = 0x4;

pub const FD_FDSTAT_SET_FLAGS: u64 = 0x8;

pub const FD_SYNC: u64 = 0x10;

pub const FD_TELL: u64 = 0x20;

pub const FD_WRITE: u64 = 0x40;

pub const FD_ADVISE: u64 = 0x80;

pub const FD_ALLOCATE: u64 = 0x100;

pub const PATH_CREATE_DIRECTORY: u64 = 0x200;

pub const PATH_CREATE_FILE: u64 = 0x400;

pub const PATH_LINK_SOURCE: u64 = 0x800;

pub const PATH_LINK_TARGET: u64 = 0x1000;

pub const PATH_OPEN: u64 = 0x2000;

pub const FD_READDIR: u64 = 0x4000;

pub const PATH_READLINK: u64 = 0x8000;

pub const PATH_RENAME_SOURCE: u64 = 0x10000;

pub const PATH_RENAME_TARGET: u64 = 0x20000;

pub const PATH_FILESTAT_GET: u64 = 0x40000;

pub const PATH_FILESTAT_SET_SIZE: u64 = 0x80000;

pub const PATH_FILESTAT_SET_TIMES: u64 = 0x100000;

pub const FD_FILESTAT_GET: u64 = 0x200000;

pub const FD_FILESTAT_SET_SIZE: u64 = 0x400000;

pub const FD_FILESTAT_SET_TIMES: u64 = 0x800000;

pub const PATH_SYMLINK: u64 = 0x1000000;

pub const PATH_REMOVE_DIRECTORY: u64 = 0x2000000;

pub const PATH_UNLINK_FILE: u64 = 0x4000000;

pub const POLL_FD_READWRITE: u64 = 0x8000000;

pub const SOCK_SHUTDOWN: u64 = 0x10000000;

/// Every right there is.
pub const ALL_RIGHTS: u64 = 0x7fffffffff;

/// The rights of standard input: data sync, read, sync, advise, stat, poll.
pub const STDIN_DEFAULT_RIGHTS: u64 = FD_DATASYNC | FD_READ | FD_SYNC | FD_ADVISE | FD_FILESTAT_GET
    | POLL_FD_READWRITE;

/// The rights of standard output: data sync, sync, write, advise, stat,
/// poll.
pub const STDOUT_DEFAULT_RIGHTS: u64 = FD_DATASYNC | FD_SYNC | FD_WRITE | FD_ADVISE | FD_FILESTAT_GET
    | POLL_FD_READWRITE;

/// The rights of standard error: those of standard output.
pub const STDERR_DEFAULT_RIGHTS: u64 = STDOUT_DEFAULT_RIGHTS;

/// The rights that every preopened directory has: advise, tell, seek.
pub const PREOPEN_BASE_RIGHTS: u64 = FD_ADVISE | FD_TELL | FD_SEEK;

/// The rights that reading adds to a preopened directory.
pub const PREOPEN_READ_RIGHTS: u64 = FD_READ | PATH_OPEN | FD_READDIR | PATH_READLINK | PATH_FILESTAT_GET
    | FD_FILESTAT_GET | PATH_LINK_SOURCE | PATH_RENAME_SOURCE | POLL_FD_READWRITE | SOCK_SHUTDOWN;

/// The rights that writing adds to a preopened directory.
pub const PREOPEN_WRITE_RIGHTS: u64 = FD_DATASYNC | FD_FDSTAT_SET_FLAGS | FD_WRITE | FD_SYNC | FD_ALLOCATE
    | PATH_OPEN | PATH_RENAME_TARGET | PATH_FILESTAT_SET_SIZE | PATH_FILESTAT_SET_TIMES
    | FD_FILESTAT_SET_SIZE | FD_FILESTAT_SET_TIMES | PATH_REMOVE_DIRECTORY | PATH_UNLINK_FILE
    | POLL_FD_READWRITE | SOCK_SHUTDOWN;

/// The rights that creating adds to a preopened directory.
pub const PREOPEN_CREATE_RIGHTS: u64 = PATH_CREATE_DIRECTORY | PATH_CREATE_FILE | PATH_LINK_TARGET | PATH_OPEN
    | PATH_RENAME_TARGET | PATH_SYMLINK;

pub const FDFLAGS_APPEND: u16 = 0x1;

pub const FDFLAGS_DSYNC: u16 = 0x2;

pub const FDFLAGS_NONBLOCK: u16 = 0x4;

pub const FDFLAGS_RSYNC: u16 = 0x8;

pub const FDFLAGS_SYNC: u16 = 0x10;

/// What kind of file a stat speaks of.
#[derive(Clone, Copy, Debug, PartialEq, Eq, Structural)]
pub enum Filetype {
    Unknown,
    BlockDevice,
    CharacterDevice,
    Directory,
    RegularFile,
    SocketDgram,
    SocketStream,
    SymbolicLink,
}

/// The statistics of a file.
#[derive(Clone, Copy, Debug, PartialEq, Eq, Structural)]
pub struct Filestat {
    pub st_dev: u64,
    pub st_ino: u64,
    pub st_filetype: Filetype,
    pub st_nlink: u64,
    pub st_size: u64,
    pub st_atim: u64,
    pub st_mtim: u64,
    pub st_ctim: u64,
}

/// The statistics of nothing in particular: an unknown type, one link, and
/// zeros.
pub open spec fn default_filestat() -> Filestat {
    Filestat {
        st_dev: 0,
        st_ino: 0,
        st_filetype: Filetype::Unknown,
        st_nlink: 1,
        st_size: 0,
        st_atim: 0,
        st_mtim: 0,
        st_ctim: 0,
    }
}

impl Default for Filestat {
    fn default() -> (r: Self)
        ensures
            r == default_filestat(),
    {
        Filestat {
            st_dev: 0,
            st_ino: 0,
            st_filetype: Filetype::Unknown,
            st_nlink: 1,
            st_size: 0,
            st_atim: 0,
            st_mtim: 0,
            st_ctim: 0,
        }
    }
}

/// What a descriptor is and may do.
#[derive(Clone, Copy, Debug, PartialEq, Eq, Structural)]
pub struct Fdstat {
    pub fs_filetype: Filetype,
    pub fs_flags: u16,
    pub fs_rights_base: u64,
    pub fs_rights_inheriting: u64,
}

/// What a preopened descriptor is: a directory, and the length of its name
/// with one more for the end mark.
#[derive(Clone, Copy, Debug, PartialEq, Eq, Structural)]
pub struct Prestat {
    pub pr_name_len: u32,
}

} // verus!
