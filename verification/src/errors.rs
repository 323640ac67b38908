//! The error codes of the storage layer and of the guest interface.
use vstd::prelude::*;
use vstd::string::StringSliceAdditionalSpecFns;

verus! {

/// What a filesystem operation can fail with.
#[derive(Clone, Copy, Debug, PartialEq, Eq, Structural)]
pub enum FsError {
    /// The path leads through something that is not a directory.
    BaseNotDirectory,
    /// A file was expected and something else was found.
    NotAFile,
    /// The descriptor does not name an open file.
    InvalidFd,
    /// The entry is already there.
    AlreadyExists,
    /// A lock could not be taken.
    Lock,
    /// The transport failed.
    IOError,
    /// Nothing is at the path.
    EntryNotFound,
    /// The operation is not allowed on this entry.
    PermissionDenied,
    /// The directory still has entries.
    DirectoryNotEmpty,
    /// No device stands behind the descriptor.
    NoDevice,
    /// An argument is malformed.
    InvalidInput,
    /// The time allowed ran out.
    TimedOut,
    /// Any other failure.
    UnknownError,
}

/// The result codes handed to the guest.
#[derive(Clone, Copy, Debug, PartialEq, Eq, Structural)]
pub enum Errno {
    Success,
    Access,
    Badf,
    Exist,
    Inval,
    Io,
    Isdir,
    Mlink,
    Nodev,
    Noent,
    Notcapable,
    Notdir,
    Notempty,
    Perm,
    Timedout,
}

/// The guest code for a storage error.
pub open spec fn errno_of(e: FsError) -> Errno {
    match e {
        FsError::AlreadyExists => Errno::Exist,
        FsError::BaseNotDirectory => Errno::Notdir,
        FsError::NotAFile => Errno::Inval,
        FsError::InvalidFd => Errno::Badf,
        FsError::InvalidInput => Errno::Inval,
        FsError::IOError => Errno::Io,
        FsError::NoDevice => Errno::Nodev,
        FsError::EntryNotFound => Errno::Noent,
        FsError::PermissionDenied => Errno::Perm,
        FsError::TimedOut => Errno::Timedout,
        FsError::DirectoryNotEmpty => Errno::Notempty,
        FsError::Lock => Errno::Io,
        FsError::UnknownError => Errno::Io,
    }
}

/// The storage error for a guest code.
pub open spec fn fs_error_of(e: Errno) -> FsError {
    match e {
        Errno::Badf => FsError::InvalidFd,
        Errno::Exist => FsError::AlreadyExists,
        Errno::Io => FsError::IOError,
        Errno::Inval => FsError::InvalidInput,
        Errno::Nodev => FsError::NoDevice,
        Errno::Noent => FsError::EntryNotFound,
        Errno::Perm => FsError::PermissionDenied,
        Errno::Timedout => FsError::TimedOut,
        Errno::Notempty => FsError::DirectoryNotEmpty,
        _ => FsError::UnknownError,
    }
}

/// The code that is handed to the guest for a storage error.
pub fn fs_error_into_wasi_err(e: FsError) -> (r: Errno)
    ensures
        r == errno_of(e),
{
    match e {
        FsError::AlreadyExists => Errno::Exist,
        FsError::BaseNotDirectory => Errno::Notdir,
        FsError::NotAFile => Errno::Inval,
        FsError::InvalidFd => Errno::Badf,
        FsError::InvalidInput => Errno::Inval,
        FsError::IOError => Errno::Io,
        FsError::NoDevice => Errno::Nodev,
        FsError::EntryNotFound => Errno::Noent,
        FsError::PermissionDenied => Errno::Perm,
        FsError::TimedOut => Errno::Timedout,
        FsError::DirectoryNotEmpty => Errno::Notempty,
        FsError::Lock => Errno::Io,
        FsError::UnknownError => Errno::Io,
    }
}

/// The storage error that stands for a guest code.
pub fn fs_error_from_wasi_err(e: Errno) -> (r: FsError)
    ensures
        r == fs_error_of(e),
{
    match e {
        Errno::Badf => FsError::InvalidFd,
        Errno::Exist => FsError::AlreadyExists,
        Errno::Io => FsError::IOError,
        Errno::Inval => FsError::InvalidInput,
        Errno::Nodev => FsError::NoDevice,
        Errno::Noent => FsError::EntryNotFound,
        Errno::Perm => FsError::PermissionDenied,
        Errno::Timedout => FsError::TimedOut,
        Errno::Notempty => FsError::DirectoryNotEmpty,
        _ => FsError::UnknownError,
    }
}


/// Why the network refused.
#[derive(Clone, Copy, Debug, PartialEq, Eq, Structural)]
pub enum NetworkError {
    InvalidFd,
    AlreadyExists,
    Lock,
    IOError,
    InvalidInput,
    NoDevice,
    PermissionDenied,
    TimedOut,
    Unsupported,
    UnknownError,
}

/// The guest code for a refusal of the network.
pub open spec fn errno_of_net(e: NetworkError) -> Errno {
    match e {
        NetworkError::InvalidFd => Errno::Badf,
        NetworkError::AlreadyExists => Errno::Exist,
        NetworkError::Lock => Errno::Io,
        NetworkError::IOError => Errno::Io,
        NetworkError::InvalidInput => Errno::Inval,
        NetworkError::NoDevice => Errno::Nodev,
        NetworkError::PermissionDenied => Errno::Perm,
        NetworkError::TimedOut => Errno::Timedout,
        NetworkError::Unsupported => Errno::Inval,
        NetworkError::UnknownError => Errno::Io,
    }
}

/// The code that is handed to the guest for a refusal of the network.
pub fn net_error_into_wasi_err(e: NetworkError) -> (r: Errno)
    ensures
        r == errno_of_net(e),
{
    match e {
        NetworkError::InvalidFd => Errno::Badf,
        NetworkError::AlreadyExists => Errno::Exist,
        NetworkError::Lock => Errno::Io,
        NetworkError::IOError => Errno::Io,
        NetworkError::InvalidInput => Errno::Inval,
        NetworkError::NoDevice => Errno::Nodev,
        NetworkError::PermissionDenied => Errno::Perm,
        NetworkError::TimedOut => Errno::Timedout,
        NetworkError::Unsupported => Errno::Inval,
        NetworkError::UnknownError => Errno::Io,
    }
}

/// What adding an address to the local port answers.
///
/// `cidr` says whether the address could be read from the guest, and
/// `added` what the network answered, if it was asked. An address that
/// could not be read answers with the error of the reading, and the
/// network is not asked. Else the answer is `Success` where the network
/// took the address and the code for its refusal where it did not; `Io`
/// where the network was not asked at all.
pub open spec fn port_addr_add_spec(
    cidr: Result<(), Errno>,
    added: Option<Result<(), NetworkError>>,
) -> Errno {
    match cidr {
        Err(e) => e,
        Ok(_) => match added {
            Some(Ok(_)) => Errno::Success,
            Some(Err(e)) => errno_of_net(e),
            None => Errno::Io,
        },
    }
}

/// What adding an address to the local port answers, given what reading
/// the address gave and what the network answered.
pub fn port_addr_add_answer(cidr: Result<(), Errno>, added: Option<Result<(), NetworkError>>) -> (r:
    Errno)
    ensures
        r == port_addr_add_spec(cidr, added),
{
    match cidr {
        Err(e) => e,
        Ok(_) => match added {
            Some(Ok(_)) => Errno::Success,
            Some(Err(e)) => net_error_into_wasi_err(e),
            None => Errno::Io,
        },
    }
}


/// The words for a storage error.
pub open spec fn fs_error_words(e: FsError) -> &'static str {
    match e {
        FsError::BaseNotDirectory => "base is not a directory",
        FsError::NotAFile => "not a file",
        FsError::InvalidFd => "invalid file descriptor",
        FsError::AlreadyExists => "entry already exists",
        FsError::Lock => "lock error",
        FsError::IOError => "io error",
        FsError::EntryNotFound => "entry not found",
        FsError::PermissionDenied => "permission denied",
        FsError::DirectoryNotEmpty => "directory not empty",
        FsError::NoDevice => "no device",
        FsError::InvalidInput => "invalid input",
        FsError::TimedOut => "timed out",
        FsError::UnknownError => "unknown error",
    }
}

/// The name of a guest code.
pub open spec fn errno_name(e: Errno) -> &'static str {
    match e {
        Errno::Success => "success",
        Errno::Access => "access",
        Errno::Badf => "badf",
        Errno::Exist => "exist",
        Errno::Inval => "inval",
        Errno::Io => "io",
        Errno::Isdir => "isdir",
        Errno::Mlink => "mlink",
        Errno::Nodev => "nodev",
        Errno::Noent => "noent",
        Errno::Notcapable => "notcapable",
        Errno::Notdir => "notdir",
        Errno::Notempty => "notempty",
        Errno::Perm => "perm",
        Errno::Timedout => "timedout",
    }
}

impl FsError {
    /// The words for the error.
    pub fn words(&self) -> (r: &'static str)
        ensures
            r@ == fs_error_words(*self)@,
    {
        match self {
            FsError::BaseNotDirectory => "base is not a directory",
            FsError::NotAFile => "not a file",
            FsError::InvalidFd => "invalid file descriptor",
            FsError::AlreadyExists => "entry already exists",
            FsError::Lock => "lock error",
            FsError::IOError => "io error",
            FsError::EntryNotFound => "entry not found",
            FsError::PermissionDenied => "permission denied",
            FsError::DirectoryNotEmpty => "directory not empty",
            FsError::NoDevice => "no device",
            FsError::InvalidInput => "invalid input",
            FsError::TimedOut => "timed out",
            FsError::UnknownError => "unknown error",
        }
    }
}

impl Errno {
    /// The name of the code.
    pub fn name(&self) -> (r: &'static str)
        ensures
            r@ == errno_name(*self)@,
    {
        match self {
            Errno::Success => "success",
            Errno::Access => "access",
            Errno::Badf => "badf",
            Errno::Exist => "exist",
            Errno::Inval => "inval",
            Errno::Io => "io",
            Errno::Isdir => "isdir",
            Errno::Mlink => "mlink",
            Errno::Nodev => "nodev",
            Errno::Noent => "noent",
            Errno::Notcapable => "notcapable",
            Errno::Notdir => "notdir",
            Errno::Notempty => "notempty",
            Errno::Perm => "perm",
            Errno::Timedout => "timedout",
        }
    }
}

/// The bytes of a text.
pub open spec fn text(s: &str) -> Seq<u8> {
    s.spec_bytes()
}

/// Puts the bytes of a text behind what a message holds.
pub fn push_text(out: &mut Vec<u8>, s: &str)
    ensures
        final(out)@ == old(out)@ + text(s),
{
    out.extend_from_slice(s.as_bytes());
}

/// Puts bytes behind what a message holds.
pub fn push_bytes(out: &mut Vec<u8>, bytes: &[u8])
    ensures
        final(out)@ == old(out)@ + bytes@,
{
    out.extend_from_slice(bytes);
}

} // verus!
