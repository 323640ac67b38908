//! The root filesystem of a guest, and what is done with a descriptor
//! beyond the table: uniting packages, flushing, and reporting.
use crate::errors::errno_of;
use crate::errors::fs_error_into_wasi_err;
use crate::errors::Errno;
use crate::errors::FsError;
use crate::overlay_fs::OverlayFileSystem;
use crate::overlay_fs::OverlayView;
use crate::path::bytes_eq;
use crate::state::fd::Fd;
use crate::state::fs::fdstat_spec;
use crate::state::fs::WasiFs;
use crate::state::inodes::Inode;
use crate::state::inodes::InodeValView;
use crate::state::inodes::Kind;
use crate::state::inodes::KindView;
use crate::state::inodes::WasiInodes;
use crate::state::open::handle_of;
use crate::state::types::Fdstat;
use crate::state::types::FD_DATASYNC;
use crate::state::types::STDERR_FILENO;
use crate::state::types::STDIN_FILENO;
use crate::state::types::STDOUT_FILENO;
use crate::vfs::DirEntry;
use crate::vfs::DirEntryView;
use crate::vfs::FileSystem;
use crate::vfs::Metadata;
use crate::vfs::OpenOptionsConfig;
use crate::vfs::VirtualFile;
use crate::vfs::VirtualFileView;
use vstd::prelude::*;

verus! {

/// The root filesystem of a guest: a sandbox that packages can be united
/// with, or a store that is used as it is.
#[derive(Debug)]
pub enum WasiFsRoot<S, B> {
    Sandbox(S),
    Backing(B),
}

/// The model of a root filesystem.
pub enum WasiFsRootView<A, B> {
    Sandbox(A),
    Backing(B),
}

/// A change's outcome with the state put back into its variant.
pub open spec fn in_sandbox<A, B, T>(r: (T, A)) -> (T, WasiFsRootView<A, B>) {
    (r.0, WasiFsRootView::Sandbox(r.1))
}

/// A change's outcome with the state put back into its variant.
pub open spec fn in_backing<A, B, T>(r: (T, B)) -> (T, WasiFsRootView<A, B>) {
    (r.0, WasiFsRootView::Backing(r.1))
}

impl<S: FileSystem, B: FileSystem> FileSystem for WasiFsRoot<S, B> {
    type V = WasiFsRootView<S::V, B::V>;

    open spec fn view(&self) -> WasiFsRootView<S::V, B::V> {
        match self {
            WasiFsRoot::Sandbox(fs) => WasiFsRootView::Sandbox(fs@),
            WasiFsRoot::Backing(fs) => WasiFsRootView::Backing(fs@),
        }
    }

    open spec fn inv(&self) -> bool {
        match self {
            WasiFsRoot::Sandbox(fs) => fs.inv(),
            WasiFsRoot::Backing(fs) => fs.inv(),
        }
    }

    proof fn law_made_dir_is_dir(&self, path: Seq<u8>) {
        match self {
            WasiFsRoot::Sandbox(fs) => fs.law_made_dir_is_dir(path),
            WasiFsRoot::Backing(fs) => fs.law_made_dir_is_dir(path),
        }
    }

    proof fn law_dir_round_trip(&self, path: Seq<u8>) {
        match self {
            WasiFsRoot::Sandbox(fs) => fs.law_dir_round_trip(path),
            WasiFsRoot::Backing(fs) => fs.law_dir_round_trip(path),
        }
    }

    open spec fn read_dir_spec(st: WasiFsRootView<S::V, B::V>, path: Seq<u8>) -> Result<
        Seq<DirEntryView>,
        FsError,
    > {
        match st {
            WasiFsRootView::Sandbox(s) => S::read_dir_spec(s, path),
            WasiFsRootView::Backing(s) => B::read_dir_spec(s, path),
        }
    }

    open spec fn metadata_spec(st: WasiFsRootView<S::V, B::V>, path: Seq<u8>) -> Result<
        Metadata,
        FsError,
    > {
        match st {
            WasiFsRootView::Sandbox(s) => S::metadata_spec(s, path),
            WasiFsRootView::Backing(s) => B::metadata_spec(s, path),
        }
    }

    open spec fn symlink_metadata_spec(st: WasiFsRootView<S::V, B::V>, path: Seq<u8>) -> Result<
        Metadata,
        FsError,
    > {
        match st {
            WasiFsRootView::Sandbox(s) => S::symlink_metadata_spec(s, path),
            WasiFsRootView::Backing(s) => B::symlink_metadata_spec(s, path),
        }
    }

    open spec fn read_link_spec(st: WasiFsRootView<S::V, B::V>, path: Seq<u8>) -> Result<
        Seq<u8>,
        FsError,
    > {
        match st {
            WasiFsRootView::Sandbox(s) => S::read_link_spec(s, path),
            WasiFsRootView::Backing(s) => B::read_link_spec(s, path),
        }
    }

    open spec fn create_dir_spec(st: WasiFsRootView<S::V, B::V>, path: Seq<u8>) -> (
        Result<(), FsError>,
        WasiFsRootView<S::V, B::V>,
    ) {
        match st {
            WasiFsRootView::Sandbox(s) => in_sandbox(S::create_dir_spec(s, path)),
            WasiFsRootView::Backing(s) => in_backing(B::create_dir_spec(s, path)),
        }
    }

    open spec fn remove_dir_spec(st: WasiFsRootView<S::V, B::V>, path: Seq<u8>) -> (
        Result<(), FsError>,
        WasiFsRootView<S::V, B::V>,
    ) {
        match st {
            WasiFsRootView::Sandbox(s) => in_sandbox(S::remove_dir_spec(s, path)),
            WasiFsRootView::Backing(s) => in_backing(B::remove_dir_spec(s, path)),
        }
    }

    open spec fn rename_spec(st: WasiFsRootView<S::V, B::V>, from: Seq<u8>, to: Seq<u8>) -> (
        Result<(), FsError>,
        WasiFsRootView<S::V, B::V>,
    ) {
        match st {
            WasiFsRootView::Sandbox(s) => in_sandbox(S::rename_spec(s, from, to)),
            WasiFsRootView::Backing(s) => in_backing(B::rename_spec(s, from, to)),
        }
    }

    open spec fn remove_file_spec(st: WasiFsRootView<S::V, B::V>, path: Seq<u8>) -> (
        Result<(), FsError>,
        WasiFsRootView<S::V, B::V>,
    ) {
        match st {
            WasiFsRootView::Sandbox(s) => in_sandbox(S::remove_file_spec(s, path)),
            WasiFsRootView::Backing(s) => in_backing(B::remove_file_spec(s, path)),
        }
    }

    open spec fn open_spec(
        st: WasiFsRootView<S::V, B::V>,
        path: Seq<u8>,
        conf: OpenOptionsConfig,
    ) -> (Result<VirtualFileView, FsError>, WasiFsRootView<S::V, B::V>) {
        match st {
            WasiFsRootView::Sandbox(s) => in_sandbox(S::open_spec(s, path, conf)),
            WasiFsRootView::Backing(s) => in_backing(B::open_spec(s, path, conf)),
        }
    }

    fn read_dir(&self, path: &[u8]) -> (r: Result<Vec<DirEntry>, FsError>) {
        match self {
            WasiFsRoot::Sandbox(fs) => fs.read_dir(path),
            WasiFsRoot::Backing(fs) => fs.read_dir(path),
        }
    }

    fn create_dir(&mut self, path: &[u8]) -> (r: Result<(), FsError>) {
        match self {
            WasiFsRoot::Sandbox(fs) => fs.create_dir(path),
            WasiFsRoot::Backing(fs) => fs.create_dir(path),
        }
    }

    fn remove_dir(&mut self, path: &[u8]) -> (r: Result<(), FsError>) {
        match self {
            WasiFsRoot::Sandbox(fs) => fs.remove_dir(path),
            WasiFsRoot::Backing(fs) => fs.remove_dir(path),
        }
    }

    fn rename(&mut self, from: &[u8], to: &[u8]) -> (r: Result<(), FsError>) {
        match self {
            WasiFsRoot::Sandbox(fs) => fs.rename(from, to),
            WasiFsRoot::Backing(fs) => fs.rename(from, to),
        }
    }

    fn metadata(&self, path: &[u8]) -> (r: Result<Metadata, FsError>) {
        match self {
            WasiFsRoot::Sandbox(fs) => fs.metadata(path),
            WasiFsRoot::Backing(fs) => fs.metadata(path),
        }
    }

    fn symlink_metadata(&self, path: &[u8]) -> (r: Result<Metadata, FsError>) {
        match self {
            WasiFsRoot::Sandbox(fs) => fs.symlink_metadata(path),
            WasiFsRoot::Backing(fs) => fs.symlink_metadata(path),
        }
    }

    fn read_link(&self, path: &[u8]) -> (r: Result<Vec<u8>, FsError>) {
        match self {
            WasiFsRoot::Sandbox(fs) => fs.read_link(path),
            WasiFsRoot::Backing(fs) => fs.read_link(path),
        }
    }

    fn remove_file(&mut self, path: &[u8]) -> (r: Result<(), FsError>) {
        match self {
            WasiFsRoot::Sandbox(fs) => fs.remove_file(path),
            WasiFsRoot::Backing(fs) => fs.remove_file(path),
        }
    }

    fn open(&mut self, path: &[u8], conf: &OpenOptionsConfig) -> (r: Result<VirtualFile, FsError>) {
        match self {
            WasiFsRoot::Sandbox(fs) => fs.open(path, conf),
            WasiFsRoot::Backing(fs) => fs.open(path, conf),
        }
    }
}

/// A package: its name, and the filesystem it brings, if it brings one.
#[derive(Debug)]
pub struct BinaryPackage<F> {
    pub package_name: Vec<u8>,
    pub webc_fs: Option<F>,
}

/// Whether a name is in a list.
pub open spec fn has_name(names: Seq<Vec<u8>>, name: Seq<u8>) -> bool {
    exists|i: int| 0 <= i < names.len() && (#[trigger] names[i])@ == name
}

/// What flushing a descriptor answers. Standard input has nothing to
/// flush; the other standard streams need their handle. Any other
/// descriptor must not have the right to sync data (`Access`), and must
/// lead to an open file or a buffer: a directory answers `Isdir`, anything
/// else `Io`.
pub open spec fn flush_answer(
    fds: Map<u32, Fd>,
    nodes: Map<Inode, InodeValView>,
    fd: u32,
) -> Result<(), Errno> {
    if fd == STDIN_FILENO {
        Ok(())
    } else if fd == STDOUT_FILENO || fd == STDERR_FILENO {
        match handle_of(fds, nodes, fd) {
            Ok(_) => Ok(()),
            Err(e) => Err(errno_of(e)),
        }
    } else if !fds.contains_key(fd) {
        Err(Errno::Badf)
    } else if fds[fd].rights & FD_DATASYNC == FD_DATASYNC {
        Err(Errno::Access)
    } else if !nodes.contains_key(fds[fd].inode) {
        Err(Errno::Badf)
    } else {
        match nodes[fds[fd].inode].kind {
            KindView::File { handle, path, fd: special } => if handle.is_some() {
                Ok(())
            } else {
                Err(Errno::Io)
            },
            KindView::Dir { parent, path, entries } => Err(Errno::Isdir),
            KindView::Buffer { buffer } => Ok(()),
            _ => Err(Errno::Io),
        }
    }
}

impl WasiFs {
    /// Unites the filesystem of a package with a sandbox, unless a package
    /// of that name was united before. The package's filesystem is laid
    /// under the stores of the sandbox as the last of them. Returns
    /// whether the root filesystem is a sandbox; a store that is used as
    /// it is stays as it is.
    #[verifier::loop_isolation(false)]
    pub fn conditional_union<P: FileSystem, S: FileSystem, B: FileSystem>(
        &mut self,
        root: &mut WasiFsRoot<OverlayFileSystem<P, S>, B>,
        binary: BinaryPackage<S>,
    ) -> (r: bool)
        requires
            old(root).inv(),
            match binary.webc_fs {
                Some(fs) => fs.inv(),
                None => true,
            },
        ensures
            final(root).inv(),
            r == (old(root)@ is Sandbox),
            final(self).preopen_fds == old(self).preopen_fds,
            final(self).fd_map == old(self).fd_map,
            final(self).next_fd == old(self).next_fd,
            final(self).inode_counter == old(self).inode_counter,
            !r || has_name(old(self).has_unioned@, binary.package_name@) ==> final(root)@ == old(
                root,
            )@ && final(self).has_unioned == old(self).has_unioned,
            r && !has_name(old(self).has_unioned@, binary.package_name@) ==> {
                &&& final(self).has_unioned@ == old(self).has_unioned@.push(binary.package_name)
                &&& match (old(root)@, binary.webc_fs) {
                    (WasiFsRootView::Sandbox(before), Some(fs)) => final(root)@ == WasiFsRootView::<
                        OverlayView<P::V, S::V>,
                        B::V,
                    >::Sandbox(
                        OverlayView {
                            primary: before.primary,
                            secondaries: before.secondaries.push(fs@),
                        },
                    ),
                    _ => final(root)@ == old(root)@,
                }
            },
    {
        let sandbox_fs = match root {
            WasiFsRoot::Sandbox(fs) => fs,
            WasiFsRoot::Backing(_) => {
                return false;
            },
        };
        let mut i: usize = 0;
        while i < self.has_unioned.len()
            invariant
                0 <= i <= self.has_unioned.len(),
                *self == *old(self),
                forall|j: int| 0 <= j < i ==> (#[trigger] self.has_unioned@[j])@ != binary.package_name@,
            decreases self.has_unioned.len() - i,
        {
            if bytes_eq(self.has_unioned[i].as_slice(), binary.package_name.as_slice()) {
                return true;
            }
            i += 1;
        }
        self.has_unioned.push(binary.package_name);
        if let Some(fs) = binary.webc_fs {
            sandbox_fs.push_secondary(fs);
        }
        true
    }

    /// Flushes a descriptor. The files of this library hold nothing back,
    /// so what is left of flushing is its answer.
    pub fn flush(&self, inodes: &WasiInodes, fd: u32) -> (r: Result<(), Errno>)
        ensures
            r == flush_answer(self.fd_map@, inodes@, fd),
    {
        if fd == STDIN_FILENO {
            return Ok(());
        }
        if fd == STDOUT_FILENO || fd == STDERR_FILENO {
            return match inodes.std_dev_get(&self.fd_map, fd) {
                Ok(_) => Ok(()),
                Err(e) => Err(fs_error_into_wasi_err(e)),
            };
        }
        let found = self.get_fd(fd)?;
        if found.rights & FD_DATASYNC == FD_DATASYNC {
            return Err(Errno::Access);
        }
        let iv = match inodes.get_inodeval(found.inode) {
            Ok(iv) => iv,
            Err(e) => {
                return Err(e);
            },
        };
        match &iv.kind {
            Kind::File { handle, path, fd } => if handle.is_some() {
                Ok(())
            } else {
                Err(Errno::Io)
            },
            Kind::Dir { parent, path, entries } => Err(Errno::Isdir),
            Kind::Buffer { buffer } => Ok(()),
            _ => Err(Errno::Io),
        }
    }
}

/// Reports what a descriptor is and may do: writes the report into `buf`
/// and answers `Success`, or answers the error and leaves `buf` alone.
pub fn fd_fdstat_get(fs: &WasiFs, inodes: &WasiInodes, fd: u32, buf: &mut Fdstat) -> (r: Errno)
    ensures
        match fdstat_spec(fs.fd_map@, inodes@, fd) {
            Ok(stat) => r == Errno::Success && *final(buf) == stat,
            Err(e) => r == e && *final(buf) == *old(buf),
        },
{
    match fs.fdstat(inodes, fd) {
        Ok(stat) => {
            *buf = stat;
            Errno::Success
        },
        Err(e) => e,
    }
}

} // verus!
