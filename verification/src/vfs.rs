//! The uniform interface over any backing store, and the values it deals in.
use crate::errors::FsError;
use crate::path::components;
use crate::path::components_of;
use crate::path::join_components;
use crate::path::join_range;
use crate::path::names_of;
use vstd::prelude::*;

verus! {

/// What kind of thing an entry is.
#[derive(Clone, Copy, Debug, PartialEq, Eq, Structural)]
pub enum FileType {
    Dir,
    File,
    Symlink,
    CharDevice,
    BlockDevice,
    Socket,
    Fifo,
    Unknown,
}

/// What a store knows about an entry. Times are nanoseconds.
#[derive(Clone, Copy, Debug, PartialEq, Eq, Structural)]
pub struct Metadata {
    pub ft: FileType,
    pub accessed: u64,
    pub created: u64,
    pub modified: u64,
    pub len: u64,
}

impl Metadata {
    pub open spec fn spec_is_dir(&self) -> bool {
        self.ft == FileType::Dir
    }

    pub open spec fn spec_is_file(&self) -> bool {
        self.ft == FileType::File
    }

    /// Whether the entry is a directory.
    #[verifier::when_used_as_spec(spec_is_dir)]
    pub fn is_dir(&self) -> (r: bool)
        ensures
            r == self.spec_is_dir(),
    {
        matches!(self.ft, FileType::Dir)
    }

    /// Whether the entry is a regular file.
    #[verifier::when_used_as_spec(spec_is_file)]
    pub fn is_file(&self) -> (r: bool)
        ensures
            r == self.spec_is_file(),
    {
        matches!(self.ft, FileType::File)
    }

    /// The entry's type.
    pub fn file_type(&self) -> (r: FileType)
        ensures
            r == self.ft,
    {
        self.ft
    }
}

/// One entry of a directory listing: its full path and its metadata.
#[derive(Debug, PartialEq, Eq)]
pub struct DirEntry {
    pub path: Vec<u8>,
    pub metadata: Metadata,
}

/// A listing entry as a plain value.
pub struct DirEntryView {
    pub path: Seq<u8>,
    pub metadata: Metadata,
}

impl DirEntry {
    pub open spec fn view(&self) -> DirEntryView {
        DirEntryView { path: self.path@, metadata: self.metadata }
    }
}

/// The views of a listing.
pub open spec fn listing_of(v: Seq<DirEntry>) -> Seq<DirEntryView> {
    Seq::new(v.len(), |i: int| v[i]@)
}

/// The view of what a listing call returned.
pub open spec fn listing_result(r: Result<Vec<DirEntry>, FsError>) -> Result<
    Seq<DirEntryView>,
    FsError,
> {
    match r {
        Ok(v) => Ok(listing_of(v@)),
        Err(e) => Err(e),
    }
}

/// How a file is to be opened.
#[derive(Clone, Copy, Debug, PartialEq, Eq, Structural)]
pub struct OpenOptionsConfig {
    pub read: bool,
    pub write: bool,
    pub create_new: bool,
    pub create: bool,
    pub append: bool,
    pub truncate: bool,
}

impl OpenOptionsConfig {
    /// Nothing asked for.
    pub fn new() -> (r: Self)
        ensures
            r == (OpenOptionsConfig {
                read: false,
                write: false,
                create_new: false,
                create: false,
                append: false,
                truncate: false,
            }),
    {
        OpenOptionsConfig {
            read: false,
            write: false,
            create_new: false,
            create: false,
            append: false,
            truncate: false,
        }
    }

    pub fn read(self, on: bool) -> (r: Self)
        ensures
            r == (OpenOptionsConfig { read: on, ..self }),
    {
        OpenOptionsConfig { read: on, ..self }
    }

    pub fn write(self, on: bool) -> (r: Self)
        ensures
            r == (OpenOptionsConfig { write: on, ..self }),
    {
        OpenOptionsConfig { write: on, ..self }
    }

    pub fn create_new(self, on: bool) -> (r: Self)
        ensures
            r == (OpenOptionsConfig { create_new: on, ..self }),
    {
        OpenOptionsConfig { create_new: on, ..self }
    }

    pub fn create(self, on: bool) -> (r: Self)
        ensures
            r == (OpenOptionsConfig { create: on, ..self }),
    {
        OpenOptionsConfig { create: on, ..self }
    }

    pub fn append(self, on: bool) -> (r: Self)
        ensures
            r == (OpenOptionsConfig { append: on, ..self }),
    {
        OpenOptionsConfig { append: on, ..self }
    }

    pub fn truncate(self, on: bool) -> (r: Self)
        ensures
            r == (OpenOptionsConfig { truncate: on, ..self }),
    {
        OpenOptionsConfig { truncate: on, ..self }
    }

    /// Whether the file is to be made when it is missing.
    pub open spec fn would_create(&self) -> bool {
        self.create || self.create_new
    }

    /// Whether opening with these options writes to the store whatever the
    /// store holds.
    pub open spec fn would_mutate(&self) -> bool {
        self.append || self.write || self.create_new || self.truncate
    }
}

/// An open file: the bytes it held when it was opened, a cursor into them,
/// and its times.
#[derive(Debug, PartialEq, Eq)]
pub struct VirtualFile {
    pub data: Vec<u8>,
    pub cursor: usize,
    pub accessed: u64,
    pub modified: u64,
    pub created: u64,
}

/// An open file as a plain value.
pub struct VirtualFileView {
    pub data: Seq<u8>,
    pub cursor: nat,
    pub accessed: u64,
    pub modified: u64,
    pub created: u64,
}

/// The view of what an open call returned.
pub open spec fn open_result(r: Result<VirtualFile, FsError>) -> Result<VirtualFileView, FsError> {
    match r {
        Ok(f) => Ok(f@),
        Err(e) => Err(e),
    }
}

/// The view of what a call that returns bytes returned.
pub open spec fn bytes_result(r: Result<Vec<u8>, FsError>) -> Result<Seq<u8>, FsError> {
    match r {
        Ok(v) => Ok(v@),
        Err(e) => Err(e),
    }
}

impl VirtualFile {
    pub open spec fn view(&self) -> VirtualFileView {
        VirtualFileView {
            data: self.data@,
            cursor: self.cursor as nat,
            accessed: self.accessed,
            modified: self.modified,
            created: self.created,
        }
    }

    /// A file that holds `data`, with the cursor at its start.
    pub fn new(data: Vec<u8>, accessed: u64, modified: u64, created: u64) -> (r: Self)
        ensures
            r@ == (VirtualFileView { data: data@, cursor: 0, accessed, modified, created }),
    {
        VirtualFile { data, cursor: 0, accessed, modified, created }
    }

    /// The size in bytes.
    pub fn size(&self) -> (r: u64)
        ensures
            r == self@.data.len() as u64,
    {
        self.data.len() as u64
    }

    pub fn last_accessed(&self) -> (r: u64)
        ensures
            r == self@.accessed,
    {
        self.accessed
    }

    pub fn last_modified(&self) -> (r: u64)
        ensures
            r == self@.modified,
    {
        self.modified
    }

    pub fn created_time(&self) -> (r: u64)
        ensures
            r == self@.created,
    {
        self.created
    }

    /// How many bytes lie between the cursor and the end.
    pub fn bytes_available_read(&self) -> (r: Option<usize>)
        ensures
            r == Some(
                if self@.cursor <= self@.data.len() {
                    (self@.data.len() - self@.cursor) as usize
                } else {
                    0usize
                },
            ),
    {
        if self.cursor <= self.data.len() {
            Some(self.data.len() - self.cursor)
        } else {
            Some(0)
        }
    }

    /// Moves the cursor to `pos` and returns it.
    pub fn seek(&mut self, pos: usize) -> (r: usize)
        ensures
            r == pos,
            final(self)@ == (VirtualFileView { cursor: pos as nat, ..old(self)@ }),
    {
        self.cursor = pos;
        pos
    }

    /// Copies bytes from the cursor on into `buf`, as many as both hold, and
    /// moves the cursor past them.
    pub fn read(&mut self, buf: &mut Vec<u8>) -> (n: usize)
        ensures
            n == read_len(old(self)@, old(buf)@.len()),
            final(buf)@ == old(self)@.data.subrange(
                read_start(old(self)@),
                read_start(old(self)@) + n,
            ) + old(buf)@.subrange(n as int, old(buf)@.len() as int),
            final(self)@ == (VirtualFileView {
                cursor: (read_start(old(self)@) + n) as nat,
                ..old(self)@
            }),
    {
        let len = self.data.len();
        if self.cursor > len {
            self.cursor = len;
        }
        let start = self.cursor;
        let avail = len - start;
        let n = if avail < buf.len() {
            avail
        } else {
            buf.len()
        };
        let mut k: usize = 0;
        while k < n
            invariant
                0 <= k <= n,
                n <= buf.len(),
                start + n <= self.data.len(),
                buf@.len() == old(buf)@.len(),
                self.data == old(self).data,
                buf@ == self.data@.subrange(start as int, start + k) + old(buf)@.subrange(
                    k as int,
                    old(buf)@.len() as int,
                ),
            decreases n - k,
        {
            let b = self.data[start + k];
            buf.set(k, b);
            assert(buf@ =~= self.data@.subrange(start as int, start + k + 1) + old(buf)@.subrange(
                k + 1,
                old(buf)@.len() as int,
            ));
            k += 1;
        }
        self.cursor = start + n;
        n
    }

    /// Writes `bytes` at the cursor, over what is there and past the end,
    /// and moves the cursor past them. A gap between the end and the cursor
    /// is filled with zeros.
    pub fn write(&mut self, bytes: &[u8]) -> (n: usize)
        requires
            old(self)@.cursor + bytes@.len() <= usize::MAX,
        ensures
            n == bytes@.len(),
            final(self)@ == (VirtualFileView {
                data: written(old(self)@.data, old(self)@.cursor as int, bytes@),
                cursor: (old(self)@.cursor + bytes@.len()) as nat,
                ..old(self)@
            }),
    {
        let start = self.cursor;
        assert(self.data@ =~= resized(old(self).data@, self.data@.len() as int));
        while self.data.len() < start
            invariant
                old(self).data@.len() <= self.data@.len(),
                self.data@.len() <= start || self.data@.len() == old(self).data@.len(),
                self.cursor == start,
                start == old(self).cursor,
                self.accessed == old(self).accessed,
                self.modified == old(self).modified,
                self.created == old(self).created,
                self.data@ == resized(old(self).data@, self.data@.len() as int),
            decreases start - self.data.len(),
        {
            self.data.push(0u8);
            assert(self.data@ =~= resized(old(self).data@, self.data@.len() as int));
        }
        assert(self.data@ =~= written(old(self).data@, start as int, Seq::empty()));
        let mut k: usize = 0;
        while k < bytes.len()
            invariant
                0 <= k <= bytes.len(),
                start == old(self).cursor,
                start <= self.data@.len(),
                start + bytes@.len() <= usize::MAX,
                self.cursor == start,
                self.accessed == old(self).accessed,
                self.modified == old(self).modified,
                self.created == old(self).created,
                self.data@ == written(old(self).data@, start as int, bytes@.subrange(0, k as int)),
            decreases bytes.len() - k,
        {
            if start + k < self.data.len() {
                self.data.set(start + k, bytes[k]);
            } else {
                self.data.push(bytes[k]);
            }
            assert(self.data@ =~= written(
                old(self).data@,
                start as int,
                bytes@.subrange(0, k + 1),
            ));
            k += 1;
        }
        assert(bytes@.subrange(0, bytes.len() as int) =~= bytes@);
        self.cursor = start + bytes.len();
        bytes.len()
    }

    /// Cuts the file to `len` bytes, or fills it up to them with zeros.
    pub fn set_len(&mut self, len: usize) -> (r: Result<(), FsError>)
        ensures
            r.is_ok(),
            final(self)@ == (VirtualFileView { data: resized(old(self)@.data, len as int), ..old(self)@ }),
    {
        if len <= self.data.len() {
            self.data.truncate(len);
        } else {
            while self.data.len() < len
                invariant
                    old(self).data@.len() <= self.data@.len() <= len,
                    self.cursor == old(self).cursor,
                    self.accessed == old(self).accessed,
                    self.modified == old(self).modified,
                    self.created == old(self).created,
                    self.data@ == resized(old(self).data@, self.data@.len() as int),
                decreases len - self.data.len(),
            {
                self.data.push(0u8);
                assert(self.data@ =~= resized(old(self).data@, self.data@.len() as int));
            }
        }
        assert(self.data@ =~= resized(old(self)@.data, len as int));
        Ok(())
    }

    /// Asks for the file to be deleted. An open file only notes the request.
    pub fn unlink(&mut self) -> (r: Result<(), FsError>)
        ensures
            r.is_ok(),
            final(self)@ == old(self)@,
    {
        Ok(())
    }
}

/// Where a read starts: at the cursor, or at the end if the cursor lies
/// behind it.
pub open spec fn read_start(f: VirtualFileView) -> int {
    if f.cursor <= f.data.len() {
        f.cursor as int
    } else {
        f.data.len() as int
    }
}

/// How many bytes a read into a buffer of `room` bytes takes.
pub open spec fn read_len(f: VirtualFileView, room: nat) -> int {
    let avail = f.data.len() - read_start(f);
    if avail < room {
        avail
    } else {
        room as int
    }
}

/// `data` with `bytes` written at `at`: over what is there and past the
/// end, with zeros between the end and `at` where `at` lies behind it.
pub open spec fn written(data: Seq<u8>, at: int, bytes: Seq<u8>) -> Seq<u8> {
    let end = at + bytes.len();
    Seq::new(
        if end > data.len() {
            end as nat
        } else {
            data.len()
        },
        |i: int|
            if at <= i < end {
                bytes[i - at]
            } else if i < data.len() {
                data[i]
            } else {
                0u8
            },
    )
}

/// `data` cut to `len` bytes, or filled up to them with zeros.
pub open spec fn resized(data: Seq<u8>, len: int) -> Seq<u8> {
    Seq::new(
        len as nat,
        |i: int|
            if i < data.len() {
                data[i]
            } else {
                0u8
            },
    )
}

/// A store of files and directories under paths.
///
/// Every store has a model, its view, and says for each operation what it
/// answers in a given state and what state it leaves.
pub trait FileSystem: Sized {
    /// The model of the store's state.
    type V;

    spec fn view(&self) -> Self::V;

    /// What the store keeps true of itself.
    spec fn inv(&self) -> bool;

    spec fn read_dir_spec(st: Self::V, path: Seq<u8>) -> Result<Seq<DirEntryView>, FsError>;

    spec fn metadata_spec(st: Self::V, path: Seq<u8>) -> Result<Metadata, FsError>;

    spec fn symlink_metadata_spec(st: Self::V, path: Seq<u8>) -> Result<Metadata, FsError>;

    spec fn read_link_spec(st: Self::V, path: Seq<u8>) -> Result<Seq<u8>, FsError>;

    spec fn create_dir_spec(st: Self::V, path: Seq<u8>) -> (Result<(), FsError>, Self::V);

    spec fn remove_dir_spec(st: Self::V, path: Seq<u8>) -> (Result<(), FsError>, Self::V);

    spec fn rename_spec(st: Self::V, from: Seq<u8>, to: Seq<u8>) -> (Result<(), FsError>, Self::V);

    spec fn remove_file_spec(st: Self::V, path: Seq<u8>) -> (Result<(), FsError>, Self::V);

    spec fn open_spec(st: Self::V, path: Seq<u8>, conf: OpenOptionsConfig) -> (
        Result<VirtualFileView, FsError>,
        Self::V,
    );

    /// What every store keeps of a directory that it made: once it has
    /// made a directory at a path, the path leads to a directory.
    proof fn law_made_dir_is_dir(&self, path: Seq<u8>)
        requires
            self.inv(),
            Self::create_dir_spec(self@, path).0.is_ok(),
        ensures
            match Self::metadata_spec(Self::create_dir_spec(self@, path).1, path) {
                Ok(m) => m.ft == FileType::Dir,
                Err(_) => false,
            },
    ;

    /// The round trip of a directory, which every store keeps: where
    /// nothing is at a path and a directory is made there, the path then
    /// leads to a directory; that directory can be removed; and after that
    /// nothing is at the path again.
    proof fn law_dir_round_trip(&self, path: Seq<u8>)
        requires
            self.inv(),
            Self::metadata_spec(self@, path) == Err::<Metadata, FsError>(FsError::EntryNotFound),
            Self::create_dir_spec(self@, path).0.is_ok(),
        ensures
            match Self::metadata_spec(Self::create_dir_spec(self@, path).1, path) {
                Ok(m) => m.ft == FileType::Dir,
                Err(_) => false,
            },
            Self::remove_dir_spec(Self::create_dir_spec(self@, path).1, path).0.is_ok(),
            Self::metadata_spec(
                Self::remove_dir_spec(Self::create_dir_spec(self@, path).1, path).1,
                path,
            ) == Err::<Metadata, FsError>(FsError::EntryNotFound),
    ;

    /// Lists a directory.
    fn read_dir(&self, path: &[u8]) -> (r: Result<Vec<DirEntry>, FsError>)
        requires
            self.inv(),
        ensures
            listing_result(r) == Self::read_dir_spec(self@, path@),
    ;

    /// Makes a directory.
    fn create_dir(&mut self, path: &[u8]) -> (r: Result<(), FsError>)
        requires
            old(self).inv(),
        ensures
            final(self).inv(),
            r == Self::create_dir_spec(old(self)@, path@).0,
            final(self)@ == Self::create_dir_spec(old(self)@, path@).1,
    ;

    /// Removes a directory.
    fn remove_dir(&mut self, path: &[u8]) -> (r: Result<(), FsError>)
        requires
            old(self).inv(),
        ensures
            final(self).inv(),
            r == Self::remove_dir_spec(old(self)@, path@).0,
            final(self)@ == Self::remove_dir_spec(old(self)@, path@).1,
    ;

    /// Moves an entry to another path.
    fn rename(&mut self, from: &[u8], to: &[u8]) -> (r: Result<(), FsError>)
        requires
            old(self).inv(),
        ensures
            final(self).inv(),
            r == Self::rename_spec(old(self)@, from@, to@).0,
            final(self)@ == Self::rename_spec(old(self)@, from@, to@).1,
    ;

    /// The metadata of what the path leads to, through links.
    fn metadata(&self, path: &[u8]) -> (r: Result<Metadata, FsError>)
        requires
            self.inv(),
        ensures
            r == Self::metadata_spec(self@, path@),
    ;

    /// The metadata of the entry itself, a link included.
    fn symlink_metadata(&self, path: &[u8]) -> (r: Result<Metadata, FsError>)
        requires
            self.inv(),
        ensures
            r == Self::symlink_metadata_spec(self@, path@),
    ;

    /// What a link points to.
    fn read_link(&self, path: &[u8]) -> (r: Result<Vec<u8>, FsError>)
        requires
            self.inv(),
        ensures
            bytes_result(r) == Self::read_link_spec(self@, path@),
    ;

    /// Removes a file.
    fn remove_file(&mut self, path: &[u8]) -> (r: Result<(), FsError>)
        requires
            old(self).inv(),
        ensures
            final(self).inv(),
            r == Self::remove_file_spec(old(self)@, path@).0,
            final(self)@ == Self::remove_file_spec(old(self)@, path@).1,
    ;

    /// Opens a file.
    fn open(&mut self, path: &[u8], conf: &OpenOptionsConfig) -> (r: Result<VirtualFile, FsError>)
        requires
            old(self).inv(),
        ensures
            final(self).inv(),
            open_result(r) == Self::open_spec(old(self)@, path@, *conf).0,
            final(self)@ == Self::open_spec(old(self)@, path@, *conf).1,
    ;
}

/// Whether something is at the path.
pub open spec fn exists_in<F: FileSystem>(st: F::V, path: Seq<u8>) -> bool {
    F::metadata_spec(st, path).is_ok()
}

/// Whether a directory is at the path.
pub open spec fn is_dir_in<F: FileSystem>(st: F::V, path: Seq<u8>) -> bool {
    match F::metadata_spec(st, path) {
        Ok(m) => m.ft == FileType::Dir,
        Err(_) => false,
    }
}

/// Whether a regular file is at the path.
pub open spec fn is_file_in<F: FileSystem>(st: F::V, path: Seq<u8>) -> bool {
    match F::metadata_spec(st, path) {
        Ok(m) => m.ft == FileType::File,
        Err(_) => false,
    }
}

/// Whether something is at the path.
pub fn path_exists<F: FileSystem>(fs: &F, path: &[u8]) -> (r: bool)
    requires
        fs.inv(),
    ensures
        r == exists_in::<F>(fs@, path@),
{
    fs.metadata(path).is_ok()
}

/// Whether a directory is at the path.
pub fn is_dir<F: FileSystem>(fs: &F, path: &[u8]) -> (r: bool)
    requires
        fs.inv(),
    ensures
        r == is_dir_in::<F>(fs@, path@),
{
    match fs.metadata(path) {
        Ok(m) => m.is_dir(),
        Err(_) => false,
    }
}

/// Whether a regular file is at the path.
pub fn is_file<F: FileSystem>(fs: &F, path: &[u8]) -> (r: bool)
    requires
        fs.inv(),
    ensures
        r == is_file_in::<F>(fs@, path@),
{
    match fs.metadata(path) {
        Ok(m) => m.is_file(),
        Err(_) => false,
    }
}

/// The outcome of making sure that one directory is there.
pub open spec fn ensure_dir_spec<F: FileSystem>(st: F::V, path: Seq<u8>) -> (
    Result<(), FsError>,
    F::V,
) {
    match F::metadata_spec(st, path) {
        Ok(m) => if m.ft == FileType::Dir {
            (Ok(()), st)
        } else if m.ft == FileType::File {
            (Err(FsError::BaseNotDirectory), st)
        } else {
            F::create_dir_spec(st, path)
        },
        Err(_) => F::create_dir_spec(st, path),
    }
}

/// The outcome of making the directories named by the first `k` components
/// of a path, the shortest first, stopping at the first failure.
pub open spec fn create_dir_all_upto<F: FileSystem>(st: F::V, c: Seq<Seq<u8>>, k: nat) -> (
    Result<(), FsError>,
    F::V,
)
    decreases k,
{
    if k == 0 {
        (Ok(()), st)
    } else {
        let before = create_dir_all_upto::<F>(st, c, (k - 1) as nat);
        if before.0.is_err() {
            before
        } else {
            ensure_dir_spec::<F>(before.1, join_components(c.subrange(0, k as int)))
        }
    }
}

/// The outcome of making a directory and every directory above it.
pub open spec fn create_dir_all_spec<F: FileSystem>(st: F::V, path: Seq<u8>) -> (
    Result<(), FsError>,
    F::V,
) {
    create_dir_all_upto::<F>(st, components_of(path), components_of(path).len())
}

/// Makes a directory and every directory above it that is missing. A
/// directory that is there already is left alone; a file in the way fails
/// with `BaseNotDirectory`.
pub fn create_dir_all<F: FileSystem>(fs: &mut F, path: &[u8]) -> (r: Result<(), FsError>)
    requires
        old(fs).inv(),
    ensures
        final(fs).inv(),
        r == create_dir_all_spec::<F>(old(fs)@, path@).0,
        final(fs)@ == create_dir_all_spec::<F>(old(fs)@, path@).1,
{
    let c = components(path);
    let n = c.len();
    let mut k: usize = 0;
    while k < n
        invariant
            0 <= k <= n,
            n == c.len(),
            fs.inv(),
            names_of(c@) == components_of(path@),
            create_dir_all_upto::<F>(old(fs)@, components_of(path@), k as nat).0.is_ok(),
            create_dir_all_upto::<F>(old(fs)@, components_of(path@), k as nat).1 == fs@,
        decreases n - k,
    {
        let prefix = join_range(&c, 0, k + 1);
        let ghost before = fs@;
        let step = match fs.metadata(prefix.as_slice()) {
            Ok(m) => {
                if m.is_dir() {
                    Ok(())
                } else if m.is_file() {
                    Err(FsError::BaseNotDirectory)
                } else {
                    fs.create_dir(prefix.as_slice())
                }
            },
            Err(_) => fs.create_dir(prefix.as_slice()),
        };
        assert(create_dir_all_upto::<F>(old(fs)@, components_of(path@), (k + 1) as nat)
            == ensure_dir_spec::<F>(before, prefix@));
        assert(ensure_dir_spec::<F>(before, prefix@) == (step, fs@));
        if let Err(e) = step {
            proof {
                lemma_create_dir_all_stops::<F>(old(fs)@, components_of(path@), (k + 1) as nat, n as nat);
            }
            return Err(e);
        }
        k += 1;
    }
    assert(names_of(c@).len() == n);
    let ghost all = create_dir_all_spec::<F>(old(fs)@, path@);
    assert(all.0.is_ok());
    assert(all.1 == fs@);
    proof {
        lemma_ok_unit(all.0);
    }
    Ok(())
}

/// A success that carries nothing is the one such value.
pub proof fn lemma_ok_unit(r: Result<(), FsError>)
    requires
        r.is_ok(),
    ensures
        r == Ok::<(), FsError>(()),
{
    let u = r.unwrap();
    assert(u == ());
}

/// Once a step has failed, the later steps change nothing.
pub proof fn lemma_create_dir_all_stops<F: FileSystem>(st: F::V, c: Seq<Seq<u8>>, k: nat, n: nat)
    requires
        k <= n,
        create_dir_all_upto::<F>(st, c, k).0.is_err(),
    ensures
        create_dir_all_upto::<F>(st, c, n) == create_dir_all_upto::<F>(st, c, k),
    decreases n,
{
    if n > k {
        lemma_create_dir_all_stops::<F>(st, c, k, (n - 1) as nat);
    }
}

/// The options with which `touch` opens: create, append and write.
pub open spec fn touch_options() -> OpenOptionsConfig {
    OpenOptionsConfig {
        read: false,
        write: true,
        create_new: false,
        create: true,
        append: true,
        truncate: false,
    }
}

/// Makes sure that a file is at the path, creating an empty one if need be.
pub fn touch<F: FileSystem>(fs: &mut F, path: &[u8]) -> (r: Result<(), FsError>)
    requires
        old(fs).inv(),
    ensures
        final(fs).inv(),
        r.is_ok() == F::open_spec(old(fs)@, path@, touch_options()).0.is_ok(),
        r.is_err() ==> Err::<VirtualFileView, FsError>(r.unwrap_err()) == F::open_spec(
            old(fs)@,
            path@,
            touch_options(),
        ).0,
        final(fs)@ == F::open_spec(old(fs)@, path@, touch_options()).1,
{
    let conf = OpenOptionsConfig::new().create(true).append(true).write(true);
    match fs.open(path, &conf) {
        Ok(_) => Ok(()),
        Err(e) => Err(e),
    }
}

} // verus!
