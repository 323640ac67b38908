//! Files and directories that the host puts into the guest's tree, and the
//! handles of the standard streams.
use crate::errors::fs_error_from_wasi_err;
use crate::errors::Errno;
use crate::errors::FsError;
use crate::path::components;
use crate::path::components_of;
use crate::path::names_of;
use crate::state::entries::DirEntries;
use crate::state::fd::Fd;
use crate::state::fd::FdTable;
use crate::state::fd::READ;
use crate::state::fd::WRITE;
use crate::state::fs::new_fd;
use crate::state::fs::with_entry;
use crate::state::fs::with_inode;
use crate::state::fs::WalkState;
use crate::state::fs::WasiFs;
use crate::state::inodes::Inode;
use crate::state::inodes::InodeVal;
use crate::state::inodes::InodeValView;
use crate::state::inodes::Kind;
use crate::state::inodes::KindView;
use crate::state::inodes::WasiInodes;
use crate::state::types::default_filestat;
use crate::state::types::Filestat;
use crate::state::types::Filetype;
use crate::state::types::STDERR_FILENO;
use crate::state::types::STDIN_FILENO;
use crate::state::types::STDOUT_FILENO;
use crate::vfs::VirtualFile;
use crate::vfs::VirtualFileView;
use vstd::prelude::*;
use vstd::slice::slice_to_vec;

verus! {

/// A directory that exists in the guest's tree only: it has a parent, no
/// path in the root filesystem, and no entries yet.
pub open spec fn virtual_dir(parent: Inode, name: Seq<u8>) -> InodeValView {
    InodeValView {
        stat: default_filestat(),
        is_preopened: false,
        name,
        kind: KindView::Dir { parent: Some(parent), path: Seq::empty(), entries: Map::empty() },
    }
}

/// The state after a virtual directory was made under the handle `new` and
/// kept as an entry of `cur`.
pub open spec fn dir_made(st: WalkState, cur: Inode, name: Seq<u8>, new: Inode) -> WalkState {
    let s = with_inode(st, new, virtual_dir(cur, name));
    WalkState { nodes: with_entry(s.nodes, cur, name, new), ..s }
}

/// The entries of a directory or of the root.
pub open spec fn entries_of(kind: KindView) -> Option<Map<Seq<u8>, Inode>> {
    match kind {
        KindView::Dir { parent, path, entries } => Some(entries),
        KindView::Root { entries } => Some(entries),
        _ => None,
    }
}

/// Names the handle under which a directory is made.
pub open spec fn by_new(new: Inode) -> bool {
    true
}

/// Whether making a virtual directory for each of the components
/// `comps[i..]`, each one in the one before and the first in `cur`, can end
/// with `res` in the state `st1`: with the innermost directory, or with
/// `AlreadyExists` at a name that is taken, `BaseNotDirectory` in
/// something that is no directory, `InvalidFd` at an inode that is
/// missing. What was made before a failure stays.
pub open spec fn dirs_rel(
    st0: WalkState,
    cur: Inode,
    comps: Seq<Seq<u8>>,
    i: int,
    res: Result<Inode, FsError>,
    st1: WalkState,
) -> bool
    decreases comps.len() - i,
{
    if i < 0 || i > comps.len() {
        false
    } else if i == comps.len() {
        res == Ok::<Inode, FsError>(cur) && st1 == st0
    } else if !st0.nodes.contains_key(cur) {
        res == Err::<Inode, FsError>(FsError::InvalidFd) && st1 == st0
    } else {
        match entries_of(st0.nodes[cur].kind) {
            None => res == Err::<Inode, FsError>(FsError::BaseNotDirectory) && st1 == st0,
            Some(entries) => if entries.contains_key(comps[i]) {
                res == Err::<Inode, FsError>(FsError::AlreadyExists) && st1 == st0
            } else {
                exists|new: Inode| #[trigger]
                    by_new(new) && !st0.used.contains(new) && dirs_rel(
                        dir_made(st0, cur, comps[i], new),
                        new,
                        comps,
                        i + 1,
                        res,
                        st1,
                    )
            },
        }
    }
}

/// Whether every end of making directories from `cur` at component `i` is
/// an end of making them from `base` at the first component.
#[verifier::opaque]
pub open spec fn dirs_simulates(
    st: WalkState,
    cur: Inode,
    i: int,
    st_init: WalkState,
    base: Inode,
    comps: Seq<Seq<u8>>,
) -> bool {
    forall|res: Result<Inode, FsError>, fin: WalkState| #[trigger]
        dirs_rel(st, cur, comps, i, res, fin) ==> dirs_rel(st_init, base, comps, 0, res, fin)
}

proof fn lemma_dirs_start(st: WalkState, base: Inode, comps: Seq<Seq<u8>>)
    ensures
        dirs_simulates(st, base, 0, st, base, comps),
{
    reveal(dirs_simulates);
}

proof fn lemma_dirs_end(
    st: WalkState,
    cur: Inode,
    i: int,
    st_init: WalkState,
    base: Inode,
    comps: Seq<Seq<u8>>,
    res: Result<Inode, FsError>,
)
    requires
        dirs_simulates(st, cur, i, st_init, base, comps),
        0 <= i <= comps.len(),
        if i == comps.len() {
            res == Ok::<Inode, FsError>(cur)
        } else if !st.nodes.contains_key(cur) {
            res == Err::<Inode, FsError>(FsError::InvalidFd)
        } else {
            match entries_of(st.nodes[cur].kind) {
                None => res == Err::<Inode, FsError>(FsError::BaseNotDirectory),
                Some(entries) => entries.contains_key(comps[i]) && res == Err::<Inode, FsError>(
                    FsError::AlreadyExists,
                ),
            }
        },
    ensures
        dirs_rel(st_init, base, comps, 0, res, st),
{
    reveal(dirs_simulates);
    assert(dirs_rel(st, cur, comps, i, res, st));
}

proof fn lemma_dirs_step(
    st: WalkState,
    cur: Inode,
    i: int,
    st_init: WalkState,
    base: Inode,
    comps: Seq<Seq<u8>>,
    new: Inode,
)
    requires
        dirs_simulates(st, cur, i, st_init, base, comps),
        0 <= i < comps.len(),
        st.nodes.contains_key(cur),
        entries_of(st.nodes[cur].kind).is_some(),
        !entries_of(st.nodes[cur].kind).unwrap().contains_key(comps[i]),
        !st.used.contains(new),
    ensures
        dirs_simulates(dir_made(st, cur, comps[i], new), new, i + 1, st_init, base, comps),
{
    reveal(dirs_simulates);
    let stm = dir_made(st, cur, comps[i], new);
    assert forall|res: Result<Inode, FsError>, fin: WalkState| #[trigger]
        dirs_rel(stm, new, comps, i + 1, res, fin) implies dirs_rel(
        st_init,
        base,
        comps,
        0,
        res,
        fin,
    ) by {
        assert(by_new(new) && !st.used.contains(new) && dirs_rel(
            dir_made(st, cur, comps[i], new),
            new,
            comps,
            i + 1,
            res,
            fin,
        ));
        assert(dirs_rel(st, cur, comps, i, res, fin));
    }
}

/// The file that a descriptor of a file with a handle leads to.
pub open spec fn handle_of(
    fds: Map<u32, Fd>,
    nodes: Map<Inode, InodeValView>,
    fd: u32,
) -> Result<VirtualFileView, FsError> {
    if !fds.contains_key(fd) {
        Err(FsError::NoDevice)
    } else if !nodes.contains_key(fds[fd].inode) {
        Err(FsError::NotAFile)
    } else {
        match nodes[fds[fd].inode].kind {
            KindView::File { handle, path, fd: special } => match handle {
                Some(h) => Ok(h),
                None => Err(FsError::NotAFile),
            },
            _ => Err(FsError::NotAFile),
        }
    }
}

/// An inode that is a file, with another open file as its handle.
pub open spec fn with_handle(iv: InodeVal, file: VirtualFile) -> InodeVal {
    match iv.kind {
        Kind::File { handle, path, fd } => InodeVal {
            kind: Kind::File { handle: Some(file), path, fd },
            ..iv
        },
        _ => iv,
    }
}

impl WasiInodes {
    /// The handle of a standard stream: the open file of the inode that
    /// the descriptor leads to. `NoDevice` when the descriptor is missing,
    /// `NotAFile` when its inode is no file or has no handle.
    pub fn std_dev_get(&self, fd_map: &FdTable, fd: u32) -> (r: Result<&VirtualFile, FsError>)
        ensures
            match r {
                Ok(h) => handle_of(fd_map@, self@, fd) == Ok::<VirtualFileView, FsError>(h@),
                Err(e) => handle_of(fd_map@, self@, fd) == Err::<VirtualFileView, FsError>(e),
            },
    {
        match fd_map.get(fd) {
            None => Err(FsError::NoDevice),
            Some(f) => match self.get_inodeval(f.inode) {
                Err(_) => Err(FsError::NotAFile),
                Ok(iv) => match &iv.kind {
                    Kind::File { handle, path, fd } => match handle {
                        Some(h) => Ok(h),
                        None => Err(FsError::NotAFile),
                    },
                    _ => Err(FsError::NotAFile),
                },
            },
        }
    }

    /// The handle of standard output.
    pub fn stdout(&self, fd_map: &FdTable) -> (r: Result<&VirtualFile, FsError>)
        ensures
            match r {
                Ok(h) => handle_of(fd_map@, self@, STDOUT_FILENO) == Ok::<VirtualFileView, FsError>(
                    h@,
                ),
                Err(e) => handle_of(fd_map@, self@, STDOUT_FILENO) == Err::<
                    VirtualFileView,
                    FsError,
                >(e),
            },
    {
        self.std_dev_get(fd_map, STDOUT_FILENO)
    }

    /// The handle of standard error.
    pub fn stderr(&self, fd_map: &FdTable) -> (r: Result<&VirtualFile, FsError>)
        ensures
            match r {
                Ok(h) => handle_of(fd_map@, self@, STDERR_FILENO) == Ok::<VirtualFileView, FsError>(
                    h@,
                ),
                Err(e) => handle_of(fd_map@, self@, STDERR_FILENO) == Err::<
                    VirtualFileView,
                    FsError,
                >(e),
            },
    {
        self.std_dev_get(fd_map, STDERR_FILENO)
    }

    /// The handle of standard input.
    pub fn stdin(&self, fd_map: &FdTable) -> (r: Result<&VirtualFile, FsError>)
        ensures
            match r {
                Ok(h) => handle_of(fd_map@, self@, STDIN_FILENO) == Ok::<VirtualFileView, FsError>(
                    h@,
                ),
                Err(e) => handle_of(fd_map@, self@, STDIN_FILENO) == Err::<
                    VirtualFileView,
                    FsError,
                >(e),
            },
    {
        self.std_dev_get(fd_map, STDIN_FILENO)
    }

    /// The handle of a standard stream, to change it: the open file of the
    /// inode that the descriptor leads to. `NoDevice` when the descriptor
    /// is missing, `NotAFile` when its inode is no file or has no handle;
    /// the registry is then as it was.
    pub fn std_dev_get_mut(&mut self, fd_map: &FdTable, fd: u32) -> (r: Result<
        &mut VirtualFile,
        FsError,
    >)
        ensures
            match r {
                Ok(h) => handle_of(fd_map@, old(self)@, fd) == Ok::<VirtualFileView, FsError>(h@),
                Err(e) => handle_of(fd_map@, old(self)@, fd) == Err::<VirtualFileView, FsError>(e)
                    && *final(self) == *old(self),
            },
            r.is_ok() ==> old(self).replaced(
                final(self),
                fd_map@[fd].inode,
                with_handle(old(self).lookup(fd_map@[fd].inode).unwrap(), *final(r.unwrap())),
            ),
    {
        let inode = match fd_map.get(fd) {
            None => {
                return Err(FsError::NoDevice);
            },
            Some(f) => f.inode,
        };
        let open = match self.get_inodeval(inode) {
            Err(_) => false,
            Ok(iv) => match &iv.kind {
                Kind::File { handle, path, fd } => handle.is_some(),
                _ => false,
            },
        };
        if !open {
            return Err(FsError::NotAFile);
        }
        match self.get_inodeval_mut(inode) {
            Err(_) => Err(FsError::NotAFile),
            Ok(iv) => match &mut iv.kind {
                Kind::File { handle, path, fd } => match handle {
                    Some(h) => Ok(h),
                    None => Err(FsError::NotAFile),
                },
                _ => Err(FsError::NotAFile),
            },
        }
    }

    /// The handle of standard output, to change it.
    pub fn stdout_mut(&mut self, fd_map: &FdTable) -> (r: Result<&mut VirtualFile, FsError>)
        ensures
            match r {
                Ok(h) => handle_of(fd_map@, old(self)@, STDOUT_FILENO) == Ok::<
                    VirtualFileView,
                    FsError,
                >(h@),
                Err(e) => handle_of(fd_map@, old(self)@, STDOUT_FILENO) == Err::<
                    VirtualFileView,
                    FsError,
                >(e) && *final(self) == *old(self),
            },
            r.is_ok() ==> old(self).replaced(
                final(self),
                fd_map@[STDOUT_FILENO].inode,
                with_handle(
                    old(self).lookup(fd_map@[STDOUT_FILENO].inode).unwrap(),
                    *final(r.unwrap()),
                ),
            ),
    {
        self.std_dev_get_mut(fd_map, STDOUT_FILENO)
    }

    /// The handle of standard error, to change it.
    pub fn stderr_mut(&mut self, fd_map: &FdTable) -> (r: Result<&mut VirtualFile, FsError>)
        ensures
            match r {
                Ok(h) => handle_of(fd_map@, old(self)@, STDERR_FILENO) == Ok::<
                    VirtualFileView,
                    FsError,
                >(h@),
                Err(e) => handle_of(fd_map@, old(self)@, STDERR_FILENO) == Err::<
                    VirtualFileView,
                    FsError,
                >(e) && *final(self) == *old(self),
            },
            r.is_ok() ==> old(self).replaced(
                final(self),
                fd_map@[STDERR_FILENO].inode,
                with_handle(
                    old(self).lookup(fd_map@[STDERR_FILENO].inode).unwrap(),
                    *final(r.unwrap()),
                ),
            ),
    {
        self.std_dev_get_mut(fd_map, STDERR_FILENO)
    }

    /// The handle of standard input, to change it.
    pub fn stdin_mut(&mut self, fd_map: &FdTable) -> (r: Result<&mut VirtualFile, FsError>)
        ensures
            match r {
                Ok(h) => handle_of(fd_map@, old(self)@, STDIN_FILENO) == Ok::<
                    VirtualFileView,
                    FsError,
                >(h@),
                Err(e) => handle_of(fd_map@, old(self)@, STDIN_FILENO) == Err::<
                    VirtualFileView,
                    FsError,
                >(e) && *final(self) == *old(self),
            },
            r.is_ok() ==> old(self).replaced(
                final(self),
                fd_map@[STDIN_FILENO].inode,
                with_handle(
                    old(self).lookup(fd_map@[STDIN_FILENO].inode).unwrap(),
                    *final(r.unwrap()),
                ),
            ),
    {
        self.std_dev_get_mut(fd_map, STDIN_FILENO)
    }

    /// Puts another file in the place of the handle of an inode, and
    /// returns the handle that was there. An inode that is no file is left
    /// alone.
    fn swap_handle(&mut self, inode: Inode, file: VirtualFile) -> (r: Option<VirtualFile>)
        requires
            old(self)@.contains_key(inode),
            old(self)@[inode].kind is File,
        ensures
            final(self).ref_cnts == old(self).ref_cnts,
            final(self).offsets == old(self).offsets,
            forall|j: Inode| #[trigger] final(self).in_use(j) == old(self).in_use(j),
            match old(self)@[inode].kind {
                KindView::File { handle, path, fd } => {
                    &&& final(self)@ == old(self)@.insert(
                        inode,
                        InodeValView {
                            kind: KindView::File { handle: Some(file@), path, fd },
                            ..old(self)@[inode]
                        },
                    )
                    &&& match r {
                        Some(h) => handle == Some(h@),
                        None => handle.is_none(),
                    }
                },
                _ => true,
            },
    {
        let ghost before = *self;
        let mut out: Option<VirtualFile> = None;
        match self.get_inodeval_mut(inode) {
            Err(_) => {},
            Ok(iv) => {
                match &mut iv.kind {
                    Kind::File { handle, path, fd } => {
                        out = handle.take();
                        *handle = Some(file);
                    },
                    _ => {},
                }
                proof {
                    before.lemma_replaced(self, inode, *iv);
                }
            },
        }
        out
    }
}

impl WasiFs {
    /// Makes a virtual directory for each component of `name`, each in the
    /// one before and the first in the directory of the descriptor `base`,
    /// and opens the innermost one for reading and writing.
    ///
    /// Fails with `InvalidFd` when `base` is no descriptor, with
    /// `AlreadyExists` at a name that is taken, and with
    /// `BaseNotDirectory` in something that is no directory. The
    /// directories that were made before a failure stay.
    #[verifier::loop_isolation(false)]
    pub fn open_dir_all(
        &mut self,
        inodes: &mut WasiInodes,
        base: u32,
        name: &[u8],
        rights: u64,
        rights_inheriting: u64,
        flags: u16,
    ) -> (r: Result<u32, FsError>)
        ensures
            !old(self).fd_map@.contains_key(base) ==> {
                &&& r == Err::<u32, FsError>(FsError::InvalidFd)
                &&& *final(self) == *old(self)
                &&& *final(inodes) == *old(inodes)
            },
            old(self).fd_map@.contains_key(base) ==> match r {
                Err(e) => {
                    &&& dirs_rel(
                        old(self).walk_state(old(inodes)),
                        old(self).fd_map@[base].inode,
                        components_of(name@),
                        0,
                        Err(e),
                        final(self).walk_state(final(inodes)),
                    )
                    &&& final(self).fd_map == old(self).fd_map
                    &&& final(self).next_fd == old(self).next_fd
                    &&& final(inodes).ref_cnts == old(inodes).ref_cnts
                    &&& final(inodes).offsets == old(inodes).offsets
                },
                Ok(fd) => {
                    &&& fd == old(self).next_fd
                    &&& final(self).fd_map@.contains_key(fd)
                    &&& dirs_rel(
                        old(self).walk_state(old(inodes)),
                        old(self).fd_map@[base].inode,
                        components_of(name@),
                        0,
                        Ok(final(self).fd_map@[fd].inode),
                        final(self).walk_state(final(inodes)),
                    )
                    &&& final(self).fd_map@ == old(self).fd_map@.insert(
                        fd,
                        new_fd(
                            rights,
                            rights_inheriting,
                            flags,
                            3u16,
                            final(self).fd_map@[fd].inode,
                            old(inodes).ref_cnts@.len() as usize,
                            old(inodes).offsets@.len() as usize,
                        ),
                    )
                    &&& final(inodes).ref_cnts@ == old(inodes).ref_cnts@.push(1u32)
                    &&& final(inodes).offsets@ == old(inodes).offsets@.push(0u64)
                },
            },
            final(self).preopen_fds == old(self).preopen_fds,
            old(self).fd_map.wf() ==> final(self).fd_map.wf(),
    {
        let base_inode = match self.get_fd_inode(base) {
            Ok(i) => i,
            Err(e) => {
                return Err(fs_error_from_wasi_err(e));
            },
        };
        let comps = components(name);
        let n = comps.len();
        let ghost cv = components_of(name@);
        let ghost st_init = self.walk_state(inodes);
        assert(names_of(comps@).len() == n);
        let mut cur_inode = base_inode;
        let mut i: usize = 0;
        proof {
            lemma_dirs_start(st_init, base_inode, cv);
        }
        while i < n
            invariant
                0 <= i <= n,
                n == comps.len(),
                cv == names_of(comps@),
                cv.len() == n,
                st_init == old(self).walk_state(old(inodes)),
                base_inode == old(self).fd_map@[base].inode,
                old(self).same_but_counter(self),
                inodes.ref_cnts == old(inodes).ref_cnts,
                inodes.offsets == old(inodes).offsets,
                dirs_simulates(self.walk_state(inodes), cur_inode, i as int, st_init, base_inode, cv),
            decreases n - i,
        {
            let ghost st_here = self.walk_state(inodes);
            let taken = match inodes.get_inodeval(cur_inode) {
                Err(_) => {
                    proof {
                        lemma_dirs_end(
                            st_here,
                            cur_inode,
                            i as int,
                            st_init,
                            base_inode,
                            cv,
                            Err(FsError::InvalidFd),
                        );
                    }
                    return Err(FsError::InvalidFd);
                },
                Ok(iv) => match &iv.kind {
                    Kind::Dir { parent, path, entries } => entries.contains_key(comps[i].as_slice()),
                    Kind::Root { entries } => entries.contains_key(comps[i].as_slice()),
                    _ => {
                        proof {
                            lemma_dirs_end(
                                st_here,
                                cur_inode,
                                i as int,
                                st_init,
                                base_inode,
                                cv,
                                Err(FsError::BaseNotDirectory),
                            );
                        }
                        return Err(FsError::BaseNotDirectory);
                    },
                },
            };
            if taken {
                proof {
                    lemma_dirs_end(
                        st_here,
                        cur_inode,
                        i as int,
                        st_init,
                        base_inode,
                        cv,
                        Err(FsError::AlreadyExists),
                    );
                }
                return Err(FsError::AlreadyExists);
            }
            let kind = Kind::Dir {
                parent: Some(cur_inode),
                path: Vec::new(),
                entries: DirEntries::new(),
            };
            let segment_name = slice_to_vec(comps[i].as_slice());
            let inode = self.create_inode_with_default_stat(
                inodes,
                kind,
                false,
                slice_to_vec(comps[i].as_slice()),
            );
            self.attach_entry(inodes, cur_inode, segment_name, inode);
            proof {
                let want = dir_made(st_here, cur_inode, cv[i as int], inode);
                assert(self.walk_state(inodes).used =~= want.used);
                assert(self.walk_state(inodes) == want);
                lemma_dirs_step(st_here, cur_inode, i as int, st_init, base_inode, cv, inode);
            }
            cur_inode = inode;
            i += 1;
        }
        proof {
            lemma_dirs_end(
                self.walk_state(inodes),
                cur_inode,
                n as int,
                st_init,
                base_inode,
                cv,
                Ok(cur_inode),
            );
        }
        let ghost st_end = self.walk_state(inodes);
        assert(READ | WRITE == 3u16) by (bit_vector);
        match self.create_fd(inodes, rights, rights_inheriting, flags, READ | WRITE, cur_inode) {
            Ok(fd) => {
                proof {
                    assert(self.walk_state(inodes).nodes =~= st_end.nodes);
                    assert(self.walk_state(inodes).used =~= st_end.used);
                    assert(self.walk_state(inodes) == st_end);
                }
                Ok(fd)
            },
            Err(e) => Err(fs_error_from_wasi_err(e)),
        }
    }

    /// Keeps an inode as an entry of a directory. An inode that is missing
    /// or is no directory is left alone.
    pub fn attach_entry(&self, inodes: &mut WasiInodes, dir: Inode, name: Vec<u8>, child: Inode)
        ensures
            final(inodes)@ == with_entry(old(inodes)@, dir, name@, child),
            forall|j: Inode| #[trigger] final(inodes).in_use(j) == old(inodes).in_use(j),
            final(inodes).ref_cnts == old(inodes).ref_cnts,
            final(inodes).offsets == old(inodes).offsets,
    {
        let ghost before = *inodes;
        match inodes.get_inodeval_mut(dir) {
            Err(_) => {},
            Ok(iv) => {
                match &mut iv.kind {
                    Kind::Dir { parent, path, entries } => {
                        entries.insert(name, child);
                    },
                    Kind::Root { entries } => {
                        entries.insert(name, child);
                    },
                    _ => {},
                }
                proof {
                    before.lemma_replaced(inodes, dir, *iv);
                }
            },
        }
        proof {
            assert(inodes@ =~= with_entry(before@, dir, name@, child));
        }
    }
}


/// The statistics of a file that is open.
pub open spec fn stat_of_handle(h: VirtualFileView) -> Filestat {
    Filestat {
        st_filetype: Filetype::RegularFile,
        st_size: h.data.len() as u64,
        st_atim: h.accessed,
        st_mtim: h.modified,
        st_ctim: h.created,
        ..default_filestat()
    }
}

/// Why a file cannot be put under a name into the directory of a
/// descriptor, if anything.
pub open spec fn open_file_error(
    fds: Map<u32, Fd>,
    nodes: Map<Inode, InodeValView>,
    base: u32,
    name: Seq<u8>,
) -> Option<FsError> {
    if !fds.contains_key(base) || !nodes.contains_key(fds[base].inode) {
        Some(FsError::InvalidFd)
    } else {
        match entries_of(nodes[fds[base].inode].kind) {
            None => Some(FsError::BaseNotDirectory),
            Some(entries) => if entries.contains_key(name) {
                Some(FsError::AlreadyExists)
            } else {
                None
            },
        }
    }
}

/// What putting another file behind a descriptor answers: the handle that
/// was there. Of the standard streams one that is missing answers
/// `NoDevice`, and one without a handle `NotAFile`; any other descriptor
/// that is missing answers `InvalidFd`, and gets the file if it had no
/// handle. `NotAFile` for what is no file.
pub open spec fn swap_answer(
    fds: Map<u32, Fd>,
    nodes: Map<Inode, InodeValView>,
    fd: u32,
) -> Result<Option<VirtualFileView>, FsError> {
    let std = fd == STDIN_FILENO || fd == STDOUT_FILENO || fd == STDERR_FILENO;
    if !fds.contains_key(fd) {
        Err(
            if std {
                FsError::NoDevice
            } else {
                FsError::InvalidFd
            },
        )
    } else if !nodes.contains_key(fds[fd].inode) {
        Err(
            if std {
                FsError::NotAFile
            } else {
                FsError::InvalidFd
            },
        )
    } else {
        match nodes[fds[fd].inode].kind {
            KindView::File { handle, path, fd: special } => if std && handle.is_none() {
                Err(FsError::NotAFile)
            } else {
                Ok(handle)
            },
            _ => Err(FsError::NotAFile),
        }
    }
}

/// What bringing the size of a descriptor's file up to date answers: the
/// size of the open file. `Badf` for a descriptor or inode that is missing
/// and for a file that is not open, `Isdir` for a directory, `Inval` for
/// anything else.
pub open spec fn resync_answer(
    fds: Map<u32, Fd>,
    nodes: Map<Inode, InodeValView>,
    fd: u32,
) -> Result<u64, Errno> {
    if !fds.contains_key(fd) || !nodes.contains_key(fds[fd].inode) {
        Err(Errno::Badf)
    } else {
        match nodes[fds[fd].inode].kind {
            KindView::File { handle, path, fd: special } => match handle {
                Some(h) => Ok(h.data.len() as u64),
                None => Err(Errno::Badf),
            },
            KindView::Dir { parent, path, entries } => Err(Errno::Isdir),
            KindView::Root { entries } => Err(Errno::Isdir),
            _ => Err(Errno::Inval),
        }
    }
}

impl WasiFs {
    /// Puts a file that the host supplies under a name into the directory
    /// of the descriptor `base`, and opens it.
    ///
    /// Fails, and changes nothing, with `InvalidFd` when the descriptor or
    /// its inode is missing, with `BaseNotDirectory` when the inode is no
    /// directory, and with `AlreadyExists` when the name is taken.
    pub fn open_file_at(
        &mut self,
        inodes: &mut WasiInodes,
        base: u32,
        file: VirtualFile,
        open_flags: u16,
        name: Vec<u8>,
        rights: u64,
        rights_inheriting: u64,
        flags: u16,
    ) -> (r: Result<u32, FsError>)
        ensures
            match open_file_error(old(self).fd_map@, old(inodes)@, base, name@) {
                Some(e) => {
                    &&& r == Err::<u32, FsError>(e)
                    &&& *final(self) == *old(self)
                    &&& *final(inodes) == *old(inodes)
                },
                None => {
                    &&& r == Ok::<u32, FsError>(old(self).next_fd)
                    &&& final(self).fd_map@.contains_key(old(self).next_fd)
                    &&& !old(inodes).in_use(final(self).fd_map@[old(self).next_fd].inode)
                    &&& final(self).walk_state(final(inodes)) == file_made(
                        old(self).walk_state(old(inodes)),
                        old(self).fd_map@[base].inode,
                        name@,
                        final(self).fd_map@[old(self).next_fd].inode,
                        file@,
                        old(self).next_fd,
                    )
                    &&& final(self).fd_map@ == old(self).fd_map@.insert(
                        old(self).next_fd,
                        new_fd(
                            rights,
                            rights_inheriting,
                            flags,
                            open_flags,
                            final(self).fd_map@[old(self).next_fd].inode,
                            old(inodes).ref_cnts@.len() as usize,
                            old(inodes).offsets@.len() as usize,
                        ),
                    )
                    &&& final(inodes).ref_cnts@ == old(inodes).ref_cnts@.push(1u32)
                    &&& final(inodes).offsets@ == old(inodes).offsets@.push(0u64)
                },
            },
            final(self).preopen_fds == old(self).preopen_fds,
            old(self).fd_map.wf() ==> final(self).fd_map.wf(),
    {
        let base_inode = match self.get_fd_inode(base) {
            Ok(i) => i,
            Err(e) => {
                return Err(fs_error_from_wasi_err(e));
            },
        };
        let taken = match inodes.get_inodeval(base_inode) {
            Err(_) => {
                return Err(FsError::InvalidFd);
            },
            Ok(iv) => match &iv.kind {
                Kind::Dir { parent, path, entries } => entries.contains_key(name.as_slice()),
                Kind::Root { entries } => entries.contains_key(name.as_slice()),
                _ => {
                    return Err(FsError::BaseNotDirectory);
                },
            },
        };
        if taken {
            return Err(FsError::AlreadyExists);
        }
        let ghost st0 = self.walk_state(inodes);
        let ghost fv = file@;
        let stat = Filestat {
            st_dev: 0,
            st_ino: 0,
            st_filetype: Filetype::RegularFile,
            st_nlink: 1,
            st_size: file.data.len() as u64,
            st_atim: file.accessed,
            st_mtim: file.modified,
            st_ctim: file.created,
        };
        let kind = Kind::File { handle: Some(file), path: Vec::new(), fd: Some(self.next_fd) };
        let inode = self.create_inode_with_stat(
            inodes,
            kind,
            false,
            slice_to_vec(name.as_slice()),
            stat,
        );
        self.attach_entry(inodes, base_inode, name, inode);
        let ghost st_end = self.walk_state(inodes);
        proof {
            let want = file_made(st0, base_inode, name@, inode, fv, old(self).next_fd);
            assert(st_end.used =~= want.used);
            assert(st_end == want);
        }
        match self.create_fd(inodes, rights, rights_inheriting, flags, open_flags, inode) {
            Ok(fd) => {
                proof {
                    assert(self.walk_state(inodes).nodes =~= st_end.nodes);
                    assert(self.walk_state(inodes).used =~= st_end.used);
                }
                Ok(fd)
            },
            Err(e) => Err(fs_error_from_wasi_err(e)),
        }
    }

    /// Puts another file behind a descriptor, and returns the file that
    /// was there.
    pub fn swap_file(&self, inodes: &mut WasiInodes, fd: u32, file: VirtualFile) -> (r: Result<
        Option<VirtualFile>,
        FsError,
    >)
        ensures
            match swap_answer(self.fd_map@, old(inodes)@, fd) {
                Err(e) => r == Err::<Option<VirtualFile>, FsError>(e) && *final(inodes) == *old(
                    inodes,
                ),
                Ok(before) => {
                    &&& r.is_ok()
                    &&& match r.unwrap() {
                        Some(h) => before == Some(h@),
                        None => before.is_none(),
                    }
                    &&& final(inodes)@ == old(inodes)@.insert(
                        self.fd_map@[fd].inode,
                        InodeValView {
                            kind: match old(inodes)@[self.fd_map@[fd].inode].kind {
                                KindView::File { handle, path, fd: special } => KindView::File {
                                    handle: Some(file@),
                                    path,
                                    fd: special,
                                },
                                other => other,
                            },
                            ..old(inodes)@[self.fd_map@[fd].inode]
                        },
                    )
                },
            },
            final(inodes).ref_cnts == old(inodes).ref_cnts,
            final(inodes).offsets == old(inodes).offsets,
    {
        let std = fd == STDIN_FILENO || fd == STDOUT_FILENO || fd == STDERR_FILENO;
        let inode = match self.fd_map.get(fd) {
            Some(f) => f.inode,
            None => {
                return Err(
                    if std {
                        FsError::NoDevice
                    } else {
                        FsError::InvalidFd
                    },
                );
            },
        };
        let open = match inodes.get_inodeval(inode) {
            Err(_) => {
                return Err(
                    if std {
                        FsError::NotAFile
                    } else {
                        FsError::InvalidFd
                    },
                );
            },
            Ok(iv) => match &iv.kind {
                Kind::File { handle, path, fd } => handle.is_some(),
                _ => {
                    return Err(FsError::NotAFile);
                },
            },
        };
        if std && !open {
            return Err(FsError::NotAFile);
        }
        Ok(inodes.swap_handle(inode, file))
    }

    /// Brings the size in the statistics of a descriptor's file up to date
    /// with the open file, and returns it.
    pub fn filestat_resync_size(&self, inodes: &mut WasiInodes, fd: u32) -> (r: Result<u64, Errno>)
        ensures
            r == resync_answer(self.fd_map@, old(inodes)@, fd),
            r.is_err() ==> *final(inodes) == *old(inodes),
            r.is_ok() ==> final(inodes)@ == old(inodes)@.insert(
                self.fd_map@[fd].inode,
                InodeValView {
                    stat: Filestat { st_size: r.unwrap(), ..old(inodes)@[self.fd_map@[fd].inode].stat },
                    ..old(inodes)@[self.fd_map@[fd].inode]
                },
            ),
            final(inodes).ref_cnts == old(inodes).ref_cnts,
            final(inodes).offsets == old(inodes).offsets,
    {
        let inode = self.get_fd_inode(fd)?;
        let new_size = match inodes.get_inodeval(inode) {
            Err(e) => {
                return Err(e);
            },
            Ok(iv) => match &iv.kind {
                Kind::File { handle, path, fd } => match handle {
                    Some(h) => h.data.len() as u64,
                    None => {
                        return Err(Errno::Badf);
                    },
                },
                Kind::Dir { parent, path, entries } => {
                    return Err(Errno::Isdir);
                },
                Kind::Root { entries } => {
                    return Err(Errno::Isdir);
                },
                _ => {
                    return Err(Errno::Inval);
                },
            },
        };
        let ghost before = *inodes;
        match inodes.get_inodeval_mut(inode) {
            Err(_) => {},
            Ok(iv) => {
                iv.stat.st_size = new_size;
                proof {
                    before.lemma_replaced(inodes, inode, *iv);
                }
            },
        }
        Ok(new_size)
    }
}

/// The state after a file that the host supplied was made under the handle
/// `new` and kept under a name in the directory `dir`.
pub open spec fn file_made(
    st: WalkState,
    dir: Inode,
    name: Seq<u8>,
    new: Inode,
    file: VirtualFileView,
    special: u32,
) -> WalkState {
    let s = with_inode(
        st,
        new,
        InodeValView {
            stat: stat_of_handle(file),
            is_preopened: false,
            name,
            kind: KindView::File { handle: Some(file), path: Seq::empty(), fd: Some(special) },
        },
    );
    WalkState { nodes: with_entry(s.nodes, dir, name, new), ..s }
}

} // verus!
