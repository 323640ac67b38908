//! The descriptors of one guest: the table, the preopened directories and
//! the counters, with the operations that make, clone and close descriptors.
use crate::errors::errno_of;
use crate::errors::fs_error_into_wasi_err;
use crate::errors::Errno;
use crate::errors::FsError;
use crate::path::file_name_of;
use crate::path::join;
use crate::path::push_component;
use crate::pipe::PipeView;
use crate::state::entries::DirEntries;
use crate::state::fd::other_than;
use crate::state::fd::Fd;
use crate::state::fd::FdTable;
use crate::state::inodes::Inode;
use crate::state::inodes::InodeSocket;
use crate::state::inodes::InodeSocketKind;
use crate::state::inodes::InodeVal;
use crate::state::inodes::InodeValView;
use crate::state::inodes::Kind;
use crate::state::inodes::KindView;
use crate::state::inodes::WasiInodes;
use crate::state::types::default_filestat;
use crate::state::types::Fdstat;
use crate::state::types::Filestat;
use crate::state::types::Filetype;
use crate::state::types::Prestat;
use crate::state::types::ALL_RIGHTS;
use crate::state::types::FDFLAGS_APPEND;
use crate::state::types::STDERR_DEFAULT_RIGHTS;
use crate::state::types::STDERR_FILENO;
use crate::state::types::STDIN_DEFAULT_RIGHTS;
use crate::state::types::STDIN_FILENO;
use crate::state::types::STDOUT_DEFAULT_RIGHTS;
use crate::state::types::STDOUT_FILENO;
use crate::state::types::VIRTUAL_ROOT_FD;
use crate::vfs::FileSystem;
use crate::vfs::FileType;
use crate::vfs::Metadata;
use vstd::prelude::*;

verus! {

/// The filesystem state of one guest.
///
/// The inode registry and the root filesystem are shared with the guests
/// that were forked from this one, so the operations take them as
/// arguments.
#[derive(Debug)]
pub struct WasiFs {
    /// The descriptors of the preopened directories, the virtual root first.
    pub preopen_fds: Vec<u32>,
    pub name_map: DirEntries,
    pub fd_map: FdTable,
    /// The number that the next descriptor gets. It never goes back.
    pub next_fd: u32,
    /// The number that the next inode gets.
    pub inode_counter: u64,
    pub current_dir: Vec<u8>,
    /// Whether relative paths start at the current directory.
    pub is_wasix: bool,
    /// The names of the packages whose filesystems were united with the
    /// root filesystem.
    pub has_unioned: Vec<Vec<u8>>,
}

/// What a walk reads and does not change: the root filesystem, the
/// descriptors and the preopened directories.
pub struct WalkEnv<V> {
    pub root: V,
    pub fds: Map<u32, Fd>,
    pub preopens: Seq<u32>,
}

/// What a walk changes: the inodes, the handles in use, and the number of
/// the next inode.
pub struct WalkState {
    pub nodes: Map<Inode, InodeValView>,
    pub used: Set<Inode>,
    pub counter: u64,
}

/// The statistics for what a store reports.
pub open spec fn stat_of_metadata(md: Metadata) -> Filestat {
    Filestat {
        st_filetype: wasi_file_type(md.ft),
        st_size: md.len,
        st_atim: md.accessed,
        st_mtim: md.modified,
        st_ctim: md.created,
        ..default_filestat()
    }
}

/// The guest's name for a store's file type: directories, regular files
/// and links keep theirs, every other type is unknown.
pub open spec fn wasi_file_type(ft: FileType) -> Filetype {
    match ft {
        FileType::Dir => Filetype::Directory,
        FileType::File => Filetype::RegularFile,
        FileType::Symlink => Filetype::SymbolicLink,
        _ => Filetype::Unknown,
    }
}

/// The statistics for what a store answered.
pub open spec fn stat_of_answer(r: Result<Metadata, FsError>) -> Result<Filestat, Errno> {
    match r {
        Ok(md) => Ok(stat_of_metadata(md)),
        Err(e) => Err(errno_of(e)),
    }
}

/// The statistics of an inode of a kind: of an open file what the handle
/// says, of a file that is not open and of a directory what the root
/// filesystem says of the path, of a link what it says of the link itself.
/// No other kind has any.
pub open spec fn stat_for_kind_spec<R: FileSystem>(
    env: WalkEnv<R::V>,
    nodes: Map<Inode, InodeValView>,
    kind: KindView,
) -> Result<Filestat, Errno> {
    match kind {
        KindView::File { handle, path, fd } => match handle {
            Some(h) => Ok(
                Filestat {
                    st_filetype: Filetype::RegularFile,
                    st_size: h.data.len() as u64,
                    st_atim: h.accessed,
                    st_mtim: h.modified,
                    st_ctim: h.created,
                    ..default_filestat()
                },
            ),
            None => stat_of_answer(R::metadata_spec(env.root, path)),
        },
        KindView::Dir { parent, path, entries } => stat_of_answer(R::metadata_spec(env.root, path)),
        KindView::Symlink { base_po_dir, path_to_symlink, relative_path } => {
            if !env.fds.contains_key(base_po_dir) || !nodes.contains_key(
                env.fds[base_po_dir].inode,
            ) {
                Err(Errno::Badf)
            } else {
                match nodes[env.fds[base_po_dir].inode].kind {
                    KindView::Root { entries } => stat_of_answer(
                        R::symlink_metadata_spec(env.root, path_to_symlink),
                    ),
                    KindView::Dir { parent, path, entries } => stat_of_answer(
                        R::symlink_metadata_spec(env.root, push_component(path, path_to_symlink)),
                    ),
                    _ => Err(Errno::Inval),
                }
            }
        },
        _ => Err(Errno::Io),
    }
}

/// The state with one more inode, which gets the next inode number.
pub open spec fn with_inode(st: WalkState, i: Inode, iv: InodeValView) -> WalkState {
    WalkState {
        nodes: st.nodes.insert(
            i,
            InodeValView { stat: Filestat { st_ino: st.counter, ..iv.stat }, ..iv },
        ),
        used: st.used.insert(i),
        counter: if st.counter == u64::MAX {
            0
        } else {
            (st.counter + 1) as u64
        },
    }
}

/// A directory's entries with one more name, if the inode is a directory.
pub open spec fn with_entry(
    nodes: Map<Inode, InodeValView>,
    dir: Inode,
    name: Seq<u8>,
    child: Inode,
) -> Map<Inode, InodeValView> {
    if !nodes.contains_key(dir) {
        nodes
    } else {
        match nodes[dir].kind {
            KindView::Dir { parent, path, entries } => nodes.insert(
                dir,
                InodeValView {
                    kind: KindView::Dir { parent, path, entries: entries.insert(name, child) },
                    ..nodes[dir]
                },
            ),
            KindView::Root { entries } => nodes.insert(
                dir,
                InodeValView {
                    kind: KindView::Root { entries: entries.insert(name, child) },
                    ..nodes[dir]
                },
            ),
            _ => nodes,
        }
    }
}

/// The guest's name for a store's file type.
pub fn virtual_file_type_to_wasi_file_type(file_type: FileType) -> (r: Filetype)
    ensures
        r == wasi_file_type(file_type),
{
    match file_type {
        FileType::Dir => Filetype::Directory,
        FileType::File => Filetype::RegularFile,
        FileType::Symlink => Filetype::SymbolicLink,
        _ => Filetype::Unknown,
    }
}

fn stat_of(r: Result<Metadata, FsError>) -> (s: Result<Filestat, Errno>)
    ensures
        s == stat_of_answer(r),
{
    match r {
        Ok(md) => Ok(
            Filestat {
                st_dev: 0,
                st_ino: 0,
                st_filetype: virtual_file_type_to_wasi_file_type(md.ft),
                st_nlink: 1,
                st_size: md.len,
                st_atim: md.accessed,
                st_mtim: md.modified,
                st_ctim: md.created,
            },
        ),
        Err(e) => Err(fs_error_into_wasi_err(e)),
    }
}

impl WasiFs {
    /// What a walk reads of this state and of a root filesystem.
    pub open spec fn env<R: FileSystem>(&self, root: &R) -> WalkEnv<R::V> {
        WalkEnv { root: root@, fds: self.fd_map@, preopens: self.preopen_fds@ }
    }

    /// What a walk changes of this state and of a registry.
    pub open spec fn walk_state(&self, inodes: &WasiInodes) -> WalkState {
        WalkState { nodes: inodes@, used: Set::new(|i: Inode| inodes.in_use(i)), counter: self.inode_counter }
    }

    /// Whether `after` is `self` but for the number of the next inode.
    pub open spec fn same_but_counter(&self, after: &WasiFs) -> bool {
        &&& after.preopen_fds == self.preopen_fds
        &&& after.name_map == self.name_map
        &&& after.fd_map == self.fd_map
        &&& after.next_fd == self.next_fd
        &&& after.current_dir == self.current_dir
        &&& after.is_wasix == self.is_wasix
        &&& after.has_unioned == self.has_unioned
    }

    /// The descriptor with a number; `Badf` when there is none.
    pub fn get_fd(&self, fd: u32) -> (r: Result<Fd, Errno>)
        ensures
            r == (if self.fd_map@.contains_key(fd) {
                Ok::<Fd, Errno>(self.fd_map@[fd])
            } else {
                Err(Errno::Badf)
            }),
    {
        match self.fd_map.get(fd) {
            Some(f) => Ok(f),
            None => Err(Errno::Badf),
        }
    }

    /// The inode of the descriptor with a number; `Badf` when there is none.
    pub fn get_fd_inode(&self, fd: u32) -> (r: Result<Inode, Errno>)
        ensures
            r == (if self.fd_map@.contains_key(fd) {
                Ok::<Inode, Errno>(self.fd_map@[fd].inode)
            } else {
                Err(Errno::Badf)
            }),
    {
        match self.fd_map.get(fd) {
            Some(f) => Ok(f.inode),
            None => Err(Errno::Badf),
        }
    }

    /// The statistics of the inode of a descriptor.
    pub fn filestat_fd(&self, inodes: &WasiInodes, fd: u32) -> (r: Result<Filestat, Errno>)
        ensures
            r == (if self.fd_map@.contains_key(fd) && inodes@.contains_key(self.fd_map@[fd].inode) {
                Ok::<Filestat, Errno>(inodes@[self.fd_map@[fd].inode].stat)
            } else {
                Err(Errno::Badf)
            }),
    {
        let inode = self.get_fd_inode(fd)?;
        match inodes.get_inodeval(inode) {
            Ok(iv) => Ok(iv.stat),
            Err(e) => Err(e),
        }
    }

    /// The number that the next inode gets; the one after it comes next.
    pub fn get_next_inode_index(&mut self) -> (r: u64)
        ensures
            r == old(self).inode_counter,
            final(self).inode_counter == (if r == u64::MAX {
                0
            } else {
                (r + 1) as u64
            }),
            old(self).same_but_counter(final(self)),
    {
        let r = self.inode_counter;
        self.inode_counter = r.wrapping_add(1);
        r
    }

    /// The statistics of an inode of a kind.
    pub fn get_stat_for_kind<R: FileSystem>(&self, inodes: &WasiInodes, root: &R, kind: &Kind) -> (r:
        Result<Filestat, Errno>)
        requires
            root.inv(),
        ensures
            r == stat_for_kind_spec::<R>(self.env(root), inodes@, kind@),
    {
        match kind {
            Kind::File { handle, path, fd } => match handle {
                Some(wf) => Ok(
                    Filestat {
                        st_dev: 0,
                        st_ino: 0,
                        st_filetype: Filetype::RegularFile,
                        st_nlink: 1,
                        st_size: wf.data.len() as u64,
                        st_atim: wf.accessed,
                        st_mtim: wf.modified,
                        st_ctim: wf.created,
                    },
                ),
                None => stat_of(root.metadata(path.as_slice())),
            },
            Kind::Dir { parent, path, entries } => stat_of(root.metadata(path.as_slice())),
            Kind::Symlink { base_po_dir, path_to_symlink, relative_path } => {
                let base = match self.fd_map.get(*base_po_dir) {
                    Some(f) => f.inode,
                    None => {
                        return Err(Errno::Badf);
                    },
                };
                let iv = match inodes.get_inodeval(base) {
                    Ok(iv) => iv,
                    Err(e) => {
                        return Err(e);
                    },
                };
                match &iv.kind {
                    Kind::Root { entries } => stat_of(
                        root.symlink_metadata(path_to_symlink.as_slice()),
                    ),
                    Kind::Dir { parent, path, entries } => {
                        let real_path = join(path.as_slice(), path_to_symlink.as_slice());
                        stat_of(root.symlink_metadata(real_path.as_slice()))
                    },
                    _ => Err(Errno::Inval),
                }
            },
            _ => Err(Errno::Io),
        }
    }

    /// Puts an inode with the given statistics into the registry. It gets
    /// the next inode number.
    pub fn create_inode_with_stat(
        &mut self,
        inodes: &mut WasiInodes,
        kind: Kind,
        is_preopened: bool,
        name: Vec<u8>,
        stat: Filestat,
    ) -> (i: Inode)
        ensures
            !old(inodes).in_use(i),
            final(self).walk_state(final(inodes)) == with_inode(
                old(self).walk_state(old(inodes)),
                i,
                InodeValView { stat, is_preopened, name: name@, kind: kind@ },
            ),
            old(self).same_but_counter(final(self)),
            final(inodes).orphan_fds == old(inodes).orphan_fds,
            final(inodes).ref_cnts == old(inodes).ref_cnts,
            final(inodes).offsets == old(inodes).offsets,
    {
        let mut stat = stat;
        stat.st_ino = self.get_next_inode_index();
        let i = inodes.insert(InodeVal { stat, is_preopened, name, kind });
        proof {
            let want = with_inode(
                old(self).walk_state(old(inodes)),
                i,
                InodeValView { stat, is_preopened, name: name@, kind: kind@ },
            );
            assert(self.walk_state(inodes).used =~= want.used);
            assert(self.walk_state(inodes).nodes =~= want.nodes);
        }
        i
    }

    /// Puts an inode into the registry, with the statistics of nothing in
    /// particular: the file need not exist.
    pub fn create_inode_with_default_stat(
        &mut self,
        inodes: &mut WasiInodes,
        kind: Kind,
        is_preopened: bool,
        name: Vec<u8>,
    ) -> (i: Inode)
        ensures
            !old(inodes).in_use(i),
            final(self).walk_state(final(inodes)) == with_inode(
                old(self).walk_state(old(inodes)),
                i,
                InodeValView { stat: default_filestat(), is_preopened, name: name@, kind: kind@ },
            ),
            old(self).same_but_counter(final(self)),
            final(inodes).orphan_fds == old(inodes).orphan_fds,
            final(inodes).ref_cnts == old(inodes).ref_cnts,
            final(inodes).offsets == old(inodes).offsets,
    {
        let stat = Filestat::default();
        self.create_inode_with_stat(inodes, kind, is_preopened, name, stat)
    }

    /// Puts an inode into the registry, with the statistics that its kind
    /// has. Fails, and changes nothing, when the kind has none.
    pub fn create_inode<R: FileSystem>(
        &mut self,
        inodes: &mut WasiInodes,
        root: &R,
        kind: Kind,
        is_preopened: bool,
        name: Vec<u8>,
    ) -> (r: Result<Inode, Errno>)
        requires
            root.inv(),
        ensures
            match stat_for_kind_spec::<R>(old(self).env(root), old(inodes)@, kind@) {
                Err(e) => {
                    &&& r == Err::<Inode, Errno>(e)
                    &&& *final(self) == *old(self)
                    &&& *final(inodes) == *old(inodes)
                },
                Ok(stat) => r.is_ok() && !old(inodes).in_use(r.unwrap()) && final(self).walk_state(final(inodes)) == with_inode(
                    old(self).walk_state(old(inodes)),
                    r.unwrap(),
                    InodeValView { stat, is_preopened, name: name@, kind: kind@ },
                ),
            },
            old(self).same_but_counter(final(self)),
            final(inodes).orphan_fds == old(inodes).orphan_fds,
            final(inodes).ref_cnts == old(inodes).ref_cnts,
            final(inodes).offsets == old(inodes).offsets,
    {
        let stat = match self.get_stat_for_kind(inodes, root, &kind) {
            Ok(s) => s,
            Err(e) => {
                return Err(e);
            },
        };
        Ok(self.create_inode_with_stat(inodes, kind, is_preopened, name, stat))
    }

    /// Takes an inode that is in use out of the registry, whatever still
    /// leads to it.
    pub fn remove_inode(&self, inodes: &mut WasiInodes, inode: Inode) -> (r: Option<InodeVal>)
        ensures
            r.is_some() == old(inodes).in_use(inode),
            r.is_some() ==> Some(r.unwrap()) == old(inodes).lookup(inode),
            !final(inodes).in_use(inode),
            forall|j: Inode| j != inode ==> #[trigger] final(inodes).lookup(j) == old(inodes).lookup(j),
    {
        inodes.remove(inode)
    }

    /// Makes the working directory `path`.
    pub fn set_current_dir(&mut self, path: &[u8])
        ensures
            final(self).current_dir@ == path@,
            final(self).preopen_fds == old(self).preopen_fds,
            final(self).name_map == old(self).name_map,
            final(self).fd_map == old(self).fd_map,
            final(self).next_fd == old(self).next_fd,
            final(self).inode_counter == old(self).inode_counter,
            final(self).is_wasix == old(self).is_wasix,
            final(self).has_unioned == old(self).has_unioned,
    {
        self.current_dir = vstd::slice::slice_to_vec(path);
    }
}


/// The descriptors as far as closing is concerned: the table and its
/// order, the preopened descriptors, the inodes, and the shared reference
/// counts.
pub struct FdState {
    pub fds: Map<u32, Fd>,
    pub order: Seq<u32>,
    pub preopens: Seq<u32>,
    pub nodes: Map<Inode, InodeValView>,
    pub ref_cnts: Seq<u32>,
}

/// A count with one taken off, around the ends of its range.
pub open spec fn count_down(c: u32) -> u32 {
    if c == 0 {
        u32::MAX
    } else {
        (c - 1) as u32
    }
}

/// A count with one put on, around the ends of its range.
pub open spec fn count_up(c: u32) -> u32 {
    if c == u32::MAX {
        0
    } else {
        (c + 1) as u32
    }
}

/// The first place of a number in a list, or the list's length.
pub open spec fn index_of(s: Seq<u32>, fd: u32, i: int) -> int
    decreases s.len() - i,
{
    if i < 0 || i >= s.len() || s[i] == fd {
        i
    } else {
        index_of(s, fd, i + 1)
    }
}

/// A list without the first occurrence of a number.
pub open spec fn without_first(s: Seq<u32>, fd: u32) -> Seq<u32> {
    let i = index_of(s, fd, 0);
    if 0 <= i < s.len() {
        s.remove(i)
    } else {
        s
    }
}

/// The state after the descriptor left the table.
pub open spec fn without_fd(s: FdState, fd: u32) -> FdState {
    FdState { fds: s.fds.remove(fd), order: s.order.filter(other_than(fd)), ..s }
}

/// The state with another kind under an inode.
pub open spec fn with_kind(s: FdState, inode: Inode, kind: KindView) -> FdState {
    FdState { nodes: s.nodes.insert(inode, InodeValView { kind, ..s.nodes[inode] }), ..s }
}

/// What closing the last descriptor of a directory does: the descriptor
/// leaves the table, the directory's name leaves the entries of the
/// directory above, and the descriptor leaves the preopened ones if it is
/// among them. `Inval` for a directory whose path ends in no name, that
/// has no directory above it, or whose parent is no directory; `Badf`
/// when the parent is missing.
pub open spec fn close_dir(s: FdState, fd: u32, parent: Option<Inode>, path: Seq<u8>) -> (
    Result<(), Errno>,
    FdState,
) {
    match file_name_of(path) {
        None => (Err(Errno::Inval), s),
        Some(key) => match parent {
            None => (Err(Errno::Inval), s),
            Some(p) => if !s.nodes.contains_key(p) {
                (Err(Errno::Badf), s)
            } else {
                match s.nodes[p].kind {
                    KindView::Dir { parent: up, path: ppath, entries } => (
                        Ok(()),
                        FdState {
                            preopens: without_first(s.preopens, fd),
                            ..with_kind(
                                without_fd(s, fd),
                                p,
                                KindView::Dir { parent: up, path: ppath, entries: entries.remove(key) },
                            )
                        },
                    ),
                    KindView::Root { entries } => (
                        Ok(()),
                        FdState {
                            preopens: without_first(s.preopens, fd),
                            ..with_kind(
                                without_fd(s, fd),
                                p,
                                KindView::Root { entries: entries.remove(key) },
                            )
                        },
                    ),
                    _ => (Err(Errno::Inval), s),
                }
            },
        },
    }
}

/// What closing the last descriptor of an inode does to the inode.
pub open spec fn close_last(s: FdState, fd: u32, inode: Inode) -> (Result<(), Errno>, FdState) {
    if !s.nodes.contains_key(inode) {
        (Err(Errno::Badf), s)
    } else {
        match s.nodes[inode].kind {
            KindView::File { handle, path, fd: special } => (
                Ok(()),
                with_kind(s, inode, KindView::File { handle: None, path, fd: special }),
            ),
            KindView::Socket { socket } => (
                Ok(()),
                with_kind(
                    s,
                    inode,
                    KindView::Socket { socket: InodeSocket { kind: InodeSocketKind::Closed } },
                ),
            ),
            KindView::Pipe { pipe } => (
                Ok(()),
                with_kind(
                    s,
                    inode,
                    KindView::Pipe { pipe: PipeView { buffer: Seq::empty(), closed: true, ..pipe } },
                ),
            ),
            KindView::Dir { parent, path, entries } => close_dir(s, fd, parent, path),
            KindView::EventNotifications { counter, is_semaphore, immediate } => (Ok(()), s),
            KindView::Root { entries } => (Err(Errno::Access), s),
            KindView::Symlink { base_po_dir, path_to_symlink, relative_path } => (
                Err(Errno::Inval),
                s,
            ),
            KindView::Buffer { buffer } => (Err(Errno::Inval), s),
        }
    }
}

/// What closing a descriptor does.
///
/// The count that the descriptor shares goes down by one. If it was over
/// 1 the descriptor leaves the table and the inode stays as it is. Else
/// the descriptor was the last one and the inode is acted upon. `Badf`
/// for a number that is not in the table or whose count is missing.
pub open spec fn close_spec(s: FdState, fd: u32) -> (Result<(), Errno>, FdState) {
    if !s.fds.contains_key(fd) || s.fds[fd].ref_cnt >= s.ref_cnts.len() {
        (Err(Errno::Badf), s)
    } else {
        let cell = s.fds[fd].ref_cnt as int;
        let before = s.ref_cnts[cell];
        let s1 = FdState { ref_cnts: s.ref_cnts.update(cell, count_down(before)), ..s };
        if before > 1 {
            (Ok(()), without_fd(s1, fd))
        } else {
            close_last(s1, fd, s.fds[fd].inode)
        }
    }
}

/// What closing the first `k` of a list of descriptors does, one after the
/// other, whatever each close answers.
pub open spec fn close_all_upto(s: FdState, keys: Seq<u32>, k: int) -> FdState
    decreases k,
{
    if k <= 0 {
        s
    } else {
        close_spec(close_all_upto(s, keys, k - 1), keys[k - 1]).1
    }
}

/// The counts after each of the first `k` descriptors of the table, in its
/// order, has put one on the count that it shares.
pub open spec fn bumped_upto(cnts: Seq<u32>, fds: Map<u32, Fd>, order: Seq<u32>, k: int) -> Seq<u32>
    decreases k,
{
    if k <= 0 {
        cnts
    } else {
        let before = bumped_upto(cnts, fds, order, k - 1);
        let fd = order[k - 1];
        if fds.contains_key(fd) && fds[fd].ref_cnt < before.len() {
            before.update(fds[fd].ref_cnt as int, count_up(before[fds[fd].ref_cnt as int]))
        } else {
            before
        }
    }
}

/// The descriptor that a number gets: a count of 1 and an offset of 0 in
/// cells of their own.
pub open spec fn new_fd(
    rights: u64,
    rights_inheriting: u64,
    flags: u16,
    open_flags: u16,
    inode: Inode,
    ref_cnt: usize,
    offset: usize,
) -> Fd {
    Fd { ref_cnt, rights, rights_inheriting, flags, offset, open_flags, inode }
}

/// The file type that a descriptor of an inode of a kind reports.
pub open spec fn fd_file_type(kind: KindView) -> Filetype {
    match kind {
        KindView::File { handle, path, fd } => Filetype::RegularFile,
        KindView::Dir { parent, path, entries } => Filetype::Directory,
        KindView::Symlink { base_po_dir, path_to_symlink, relative_path } => Filetype::SymbolicLink,
        _ => Filetype::Unknown,
    }
}

/// What a descriptor is and may do: fixed answers for the standard
/// streams and the virtual root, else what the table and the inode say.
pub open spec fn fdstat_spec(
    fds: Map<u32, Fd>,
    nodes: Map<Inode, InodeValView>,
    fd: u32,
) -> Result<Fdstat, Errno> {
    if fd == STDIN_FILENO {
        Ok(
            Fdstat {
                fs_filetype: Filetype::CharacterDevice,
                fs_flags: 0,
                fs_rights_base: STDIN_DEFAULT_RIGHTS,
                fs_rights_inheriting: 0,
            },
        )
    } else if fd == STDOUT_FILENO {
        Ok(
            Fdstat {
                fs_filetype: Filetype::CharacterDevice,
                fs_flags: FDFLAGS_APPEND,
                fs_rights_base: STDOUT_DEFAULT_RIGHTS,
                fs_rights_inheriting: 0,
            },
        )
    } else if fd == STDERR_FILENO {
        Ok(
            Fdstat {
                fs_filetype: Filetype::CharacterDevice,
                fs_flags: FDFLAGS_APPEND,
                fs_rights_base: STDERR_DEFAULT_RIGHTS,
                fs_rights_inheriting: 0,
            },
        )
    } else if fd == VIRTUAL_ROOT_FD {
        Ok(
            Fdstat {
                fs_filetype: Filetype::Directory,
                fs_flags: 0,
                fs_rights_base: ALL_RIGHTS,
                fs_rights_inheriting: ALL_RIGHTS,
            },
        )
    } else if !fds.contains_key(fd) || !nodes.contains_key(fds[fd].inode) {
        Err(Errno::Badf)
    } else {
        Ok(
            Fdstat {
                fs_filetype: fd_file_type(nodes[fds[fd].inode].kind),
                fs_flags: fds[fd].flags,
                fs_rights_base: fds[fd].rights,
                fs_rights_inheriting: fds[fd].rights_inheriting,
            },
        )
    }
}

impl WasiFs {
    /// The descriptors of this state and a registry, as far as closing is
    /// concerned.
    pub open spec fn fd_state(&self, inodes: &WasiInodes) -> FdState {
        FdState {
            fds: self.fd_map@,
            order: self.fd_map.order(),
            preopens: self.preopen_fds@,
            nodes: inodes@,
            ref_cnts: inodes.ref_cnts@,
        }
    }

    /// Whether `after` is `self` but for the table and the preopened
    /// descriptors.
    pub open spec fn same_but_fds(&self, after: &WasiFs) -> bool {
        &&& after.name_map == self.name_map
        &&& after.next_fd == self.next_fd
        &&& after.inode_counter == self.inode_counter
        &&& after.current_dir == self.current_dir
        &&& after.is_wasix == self.is_wasix
        &&& after.has_unioned == self.has_unioned
    }

    /// Puts a descriptor for an inode under a given number. It gets a
    /// count of 1 and an offset of 0, in cells of their own.
    pub fn create_fd_ext(
        &mut self,
        inodes: &mut WasiInodes,
        rights: u64,
        rights_inheriting: u64,
        flags: u16,
        open_flags: u16,
        inode: Inode,
        idx: u32,
    ) -> (r: Result<(), Errno>)
        ensures
            r.is_ok(),
            final(self).fd_map@ == old(self).fd_map@.insert(
                idx,
                new_fd(
                    rights,
                    rights_inheriting,
                    flags,
                    open_flags,
                    inode,
                    old(inodes).ref_cnts@.len() as usize,
                    old(inodes).offsets@.len() as usize,
                ),
            ),
            final(self).fd_map.order() == (if old(self).fd_map@.contains_key(idx) {
                old(self).fd_map.order()
            } else {
                old(self).fd_map.order().push(idx)
            }),
            final(inodes).ref_cnts@ == old(inodes).ref_cnts@.push(1u32),
            final(inodes).offsets@ == old(inodes).offsets@.push(0u64),
            final(inodes).arena == old(inodes).arena,
            final(inodes).orphan_fds == old(inodes).orphan_fds,
            final(self).preopen_fds == old(self).preopen_fds,
            old(self).same_but_fds(final(self)),
            old(self).fd_map.wf() ==> final(self).fd_map.wf(),
    {
        let ref_cnt = inodes.ref_cnts.len();
        let offset = inodes.offsets.len();
        inodes.ref_cnts.push(1);
        inodes.offsets.push(0);
        self.fd_map.insert(
            idx,
            Fd { ref_cnt, rights, rights_inheriting, flags, offset, open_flags, inode },
        );
        Ok(())
    }

    /// Makes a descriptor for an inode under the next number.
    pub fn create_fd(
        &mut self,
        inodes: &mut WasiInodes,
        rights: u64,
        rights_inheriting: u64,
        flags: u16,
        open_flags: u16,
        inode: Inode,
    ) -> (r: Result<u32, Errno>)
        ensures
            r == Ok::<u32, Errno>(old(self).next_fd),
            final(self).next_fd == (if old(self).next_fd == u32::MAX {
                0
            } else {
                (old(self).next_fd + 1) as u32
            }),
            final(self).fd_map@ == old(self).fd_map@.insert(
                old(self).next_fd,
                new_fd(
                    rights,
                    rights_inheriting,
                    flags,
                    open_flags,
                    inode,
                    old(inodes).ref_cnts@.len() as usize,
                    old(inodes).offsets@.len() as usize,
                ),
            ),
            final(self).fd_map.order() == (if old(self).fd_map@.contains_key(old(self).next_fd) {
                old(self).fd_map.order()
            } else {
                old(self).fd_map.order().push(old(self).next_fd)
            }),
            final(inodes).ref_cnts@ == old(inodes).ref_cnts@.push(1u32),
            final(inodes).offsets@ == old(inodes).offsets@.push(0u64),
            final(inodes).arena == old(inodes).arena,
            final(inodes).orphan_fds == old(inodes).orphan_fds,
            final(self).preopen_fds == old(self).preopen_fds,
            final(self).name_map == old(self).name_map,
            final(self).inode_counter == old(self).inode_counter,
            final(self).current_dir == old(self).current_dir,
            final(self).is_wasix == old(self).is_wasix,
            final(self).has_unioned == old(self).has_unioned,
            old(self).fd_map.wf() ==> final(self).fd_map.wf(),
    {
        let idx = self.next_fd;
        self.next_fd = idx.wrapping_add(1);
        let _ = self.create_fd_ext(inodes, rights, rights_inheriting, flags, open_flags, inode, idx);
        Ok(idx)
    }

    /// Makes another descriptor for the inode of a descriptor, under the
    /// next number. The two share their count, which goes up by one, and
    /// their offset. `Badf` for a number that is not in the table or whose
    /// count is missing.
    pub fn clone_fd(&mut self, inodes: &mut WasiInodes, fd: u32) -> (r: Result<u32, Errno>)
        ensures
            !old(self).fd_map@.contains_key(fd) || old(self).fd_map@[fd].ref_cnt >= old(
                inodes,
            ).ref_cnts@.len() ==> {
                &&& r == Err::<u32, Errno>(Errno::Badf)
                &&& *final(self) == *old(self)
                &&& *final(inodes) == *old(inodes)
            },
            old(self).fd_map@.contains_key(fd) && old(self).fd_map@[fd].ref_cnt < old(
                inodes,
            ).ref_cnts@.len() ==> {
                &&& r == Ok::<u32, Errno>(old(self).next_fd)
                &&& final(self).next_fd == (if old(self).next_fd == u32::MAX {
                    0
                } else {
                    (old(self).next_fd + 1) as u32
                })
                &&& final(self).fd_map@ == old(self).fd_map@.insert(
                    old(self).next_fd,
                    old(self).fd_map@[fd],
                )
                &&& final(inodes).ref_cnts@ == old(inodes).ref_cnts@.update(
                    old(self).fd_map@[fd].ref_cnt as int,
                    count_up(old(inodes).ref_cnts@[old(self).fd_map@[fd].ref_cnt as int]),
                )
                &&& final(inodes).offsets == old(inodes).offsets
                &&& final(inodes).arena == old(inodes).arena
                &&& final(inodes).orphan_fds == old(inodes).orphan_fds
                &&& final(self).preopen_fds == old(self).preopen_fds
                &&& final(self).inode_counter == old(self).inode_counter
            },
            old(self).fd_map.wf() ==> final(self).fd_map.wf(),
    {
        let found = match self.fd_map.get(fd) {
            Some(f) => f,
            None => {
                return Err(Errno::Badf);
            },
        };
        if found.ref_cnt >= inodes.ref_cnts.len() {
            return Err(Errno::Badf);
        }
        let idx = self.next_fd;
        self.next_fd = idx.wrapping_add(1);
        let before = inodes.ref_cnts[found.ref_cnt];
        inodes.ref_cnts.set(found.ref_cnt, before.wrapping_add(1));
        self.fd_map.insert(idx, found);
        Ok(idx)
    }

    /// What a descriptor is and may do.
    pub fn fdstat(&self, inodes: &WasiInodes, fd: u32) -> (r: Result<Fdstat, Errno>)
        ensures
            r == fdstat_spec(self.fd_map@, inodes@, fd),
    {
        if fd == STDIN_FILENO {
            return Ok(
                Fdstat {
                    fs_filetype: Filetype::CharacterDevice,
                    fs_flags: 0,
                    fs_rights_base: STDIN_DEFAULT_RIGHTS,
                    fs_rights_inheriting: 0,
                },
            );
        }
        if fd == STDOUT_FILENO {
            return Ok(
                Fdstat {
                    fs_filetype: Filetype::CharacterDevice,
                    fs_flags: FDFLAGS_APPEND,
                    fs_rights_base: STDOUT_DEFAULT_RIGHTS,
                    fs_rights_inheriting: 0,
                },
            );
        }
        if fd == STDERR_FILENO {
            return Ok(
                Fdstat {
                    fs_filetype: Filetype::CharacterDevice,
                    fs_flags: FDFLAGS_APPEND,
                    fs_rights_base: STDERR_DEFAULT_RIGHTS,
                    fs_rights_inheriting: 0,
                },
            );
        }
        if fd == VIRTUAL_ROOT_FD {
            return Ok(
                Fdstat {
                    fs_filetype: Filetype::Directory,
                    fs_flags: 0,
                    fs_rights_base: ALL_RIGHTS,
                    fs_rights_inheriting: ALL_RIGHTS,
                },
            );
        }
        let found = self.get_fd(fd)?;
        let iv = match inodes.get_inodeval(found.inode) {
            Ok(iv) => iv,
            Err(e) => {
                return Err(e);
            },
        };
        let fs_filetype = match &iv.kind {
            Kind::File { handle, path, fd } => Filetype::RegularFile,
            Kind::Dir { parent, path, entries } => Filetype::Directory,
            Kind::Symlink { base_po_dir, path_to_symlink, relative_path } => Filetype::SymbolicLink,
            _ => Filetype::Unknown,
        };
        Ok(
            Fdstat {
                fs_filetype,
                fs_flags: found.flags,
                fs_rights_base: found.rights,
                fs_rights_inheriting: found.rights_inheriting,
            },
        )
    }

    /// What a preopened inode reports of itself: the length of its name
    /// and one more, around the end of the range.
    pub fn prestat_fd_inner(&self, inode_val: &InodeVal) -> (r: Prestat)
        ensures
            r.pr_name_len == prestat_len(inode_val@.name.len()),
    {
        let len = inode_val.name.len();
        let wide: u64 = len as u64;
        let short: u32 = (wide % 0x1_0000_0000u64) as u32;
        Prestat { pr_name_len: short.wrapping_add(1) }
    }

    /// What the preopened inode of a descriptor reports of itself. `Badf`
    /// for a descriptor that is missing or whose inode is missing or not
    /// preopened.
    pub fn prestat_fd(&self, inodes: &WasiInodes, fd: u32) -> (r: Result<Prestat, Errno>)
        ensures
            r == (if self.fd_map@.contains_key(fd) && inodes@.contains_key(self.fd_map@[fd].inode)
                && inodes@[self.fd_map@[fd].inode].is_preopened {
                Ok::<Prestat, Errno>(
                    Prestat {
                        pr_name_len: prestat_len(inodes@[self.fd_map@[fd].inode].name.len()),
                    },
                )
            } else {
                Err(Errno::Badf)
            }),
    {
        let inode = self.get_fd_inode(fd)?;
        let inode_val = match inodes.get_inodeval(inode) {
            Ok(iv) => iv,
            Err(e) => {
                return Err(e);
            },
        };
        if inode_val.is_preopened {
            Ok(self.prestat_fd_inner(inode_val))
        } else {
            Err(Errno::Badf)
        }
    }
}

/// A name's length and one more, as a number of 32 bits.
pub open spec fn prestat_len(len: nat) -> u32 {
    let short = len % 0x1_0000_0000;
    if short == u32::MAX {
        0
    } else {
        (short + 1) as u32
    }
}

} // verus!
