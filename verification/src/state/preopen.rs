//! The start of a guest's filesystem state: the standard streams, the
//! virtual root, and the preopened directories under it.
use crate::errors::errno_name;
use crate::errors::fs_error_words;
use crate::errors::push_bytes;
use crate::errors::push_text;
use crate::errors::text;
use crate::errors::Errno;
use crate::errors::FsError;
use crate::path::root_name;
use crate::path::SEP;
use crate::state::entries::DirEntries;
use crate::state::fd::Fd;
use crate::state::fd::FdTable;
use crate::state::fd::APPEND;
use crate::state::fd::CREATE;
use crate::state::fd::READ;
use crate::state::fd::TRUNCATE;
use crate::state::fd::WRITE;
use crate::state::fs::new_fd;
use crate::state::fs::stat_for_kind_spec;
use crate::state::fs::with_entry;
use crate::state::fs::with_inode;
use crate::state::fs::WalkEnv;
use crate::state::fs::WalkState;
use crate::state::fs::WasiFs;
use crate::state::inodes::Inode;
use crate::state::inodes::InodeValView;
use crate::state::inodes::Kind;
use crate::state::inodes::KindView;
use crate::state::inodes::WasiInodes;
use crate::state::open::by_new;
use crate::state::open::entries_of;
use crate::state::types::default_filestat;
use crate::state::types::Filestat;
use crate::state::types::Filetype;
use crate::state::types::ALL_RIGHTS;
use crate::state::types::FDFLAGS_APPEND;
use crate::state::types::FIRST_INODE_NUMBER;
use crate::state::types::PREOPEN_BASE_RIGHTS;
use crate::state::types::PREOPEN_CREATE_RIGHTS;
use crate::state::types::PREOPEN_READ_RIGHTS;
use crate::state::types::PREOPEN_WRITE_RIGHTS;
use crate::state::types::STDERR_DEFAULT_RIGHTS;
use crate::state::types::STDERR_FILENO;
use crate::state::types::STDIN_DEFAULT_RIGHTS;
use crate::state::types::STDIN_FILENO;
use crate::state::types::STDOUT_DEFAULT_RIGHTS;
use crate::state::types::STDOUT_FILENO;
use crate::vfs::FileSystem;
use crate::vfs::FileType;
use crate::vfs::VirtualFile;
use crate::vfs::VirtualFileView;
use vstd::prelude::*;
use vstd::string::StringSliceAdditionalSpecFns;
use vstd::slice::slice_to_vec;

verus! {

/// A directory of the root filesystem that the guest is to find open.
#[derive(Debug)]
pub struct PreopenedDir {
    /// Where the directory lies in the root filesystem.
    pub path: Vec<u8>,
    /// The name under which the guest sees it; the path if there is none.
    pub alias: Option<Vec<u8>>,
    pub read: bool,
    pub write: bool,
    pub create: bool,
}

/// Why the state could not be set up.
#[derive(Debug, PartialEq, Eq)]
pub enum PreopenError {
    /// The root filesystem has no metadata for the path.
    Metadata { path: Vec<u8>, error: FsError },
    /// What lies at the path is no directory.
    NotDirectory { path: Vec<u8> },
    /// The inode for the directory could not be made.
    CreateInode { name: Vec<u8>, errno: Errno },
    /// Two directories go by one name.
    DuplicateEntry { alias: Vec<u8> },
}

/// The reason as a plain value.
pub enum PreopenErrorView {
    Metadata { path: Seq<u8>, error: FsError },
    NotDirectory { path: Seq<u8> },
    CreateInode { name: Seq<u8>, errno: Errno },
    DuplicateEntry { alias: Seq<u8> },
}

impl PreopenError {
    pub open spec fn view(&self) -> PreopenErrorView {
        match *self {
            PreopenError::Metadata { path, error } => PreopenErrorView::Metadata {
                path: path@,
                error,
            },
            PreopenError::NotDirectory { path } => PreopenErrorView::NotDirectory { path: path@ },
            PreopenError::CreateInode { name, errno } => PreopenErrorView::CreateInode {
                name: name@,
                errno,
            },
            PreopenError::DuplicateEntry { alias } => PreopenErrorView::DuplicateEntry {
                alias: alias@,
            },
        }
    }
}

/// The text that says why the state could not be set up.
pub open spec fn message_of(e: PreopenErrorView) -> Seq<u8> {
    match e {
        PreopenErrorView::Metadata { path, error } => text("Could not get metadata for file \"")
            + path + text("\": ") + text(fs_error_words(error)),
        PreopenErrorView::NotDirectory { path } => text(
            "WASI only supports pre-opened directories right now; found \"",
        ) + path + text("\""),
        PreopenErrorView::CreateInode { name, errno } => text(
            "Failed to create inode for preopened dir (name `",
        ) + name + text("`): WASI error code: ") + text(errno_name(errno)),
        PreopenErrorView::DuplicateEntry { alias } => text("Found duplicate entry for alias `")
            + alias + text("`"),
    }
}

impl PreopenError {
    /// The text that says why the state could not be set up.
    pub fn message(&self) -> (r: Vec<u8>)
        ensures
            r@ == message_of(self@),
    {
        let mut out: Vec<u8> = Vec::new();
        match self {
            PreopenError::Metadata { path, error } => {
                push_text(&mut out, "Could not get metadata for file \"");
                push_bytes(&mut out, path.as_slice());
                push_text(&mut out, "\": ");
                push_text(&mut out, error.words());
                assert(out@ =~= message_of(self@));
            },
            PreopenError::NotDirectory { path } => {
                push_text(&mut out, "WASI only supports pre-opened directories right now; found \"");
                push_bytes(&mut out, path.as_slice());
                push_text(&mut out, "\"");
                assert(out@ =~= message_of(self@));
            },
            PreopenError::CreateInode { name, errno } => {
                push_text(&mut out, "Failed to create inode for preopened dir (name `");
                push_bytes(&mut out, name.as_slice());
                push_text(&mut out, "`): WASI error code: ");
                push_text(&mut out, errno.name());
                assert(out@ =~= message_of(self@));
            },
            PreopenError::DuplicateEntry { alias } => {
                push_text(&mut out, "Found duplicate entry for alias `");
                push_bytes(&mut out, alias.as_slice());
                push_text(&mut out, "`");
                assert(out@ =~= message_of(self@));
            },
        }
        out
    }
}

/// One directory to preopen: its path, the name the guest sees, the rights
/// and uses of its descriptor, and whether the root filesystem is asked
/// first that it is a directory.
pub struct PreopenItem {
    pub path: Seq<u8>,
    pub name: Seq<u8>,
    pub rights: u64,
    pub open_flags: u16,
    pub checked: bool,
}

/// The rights of a preopened directory: advise, tell and seek always, and
/// what reading, writing and creating each add.
pub open spec fn preopen_rights(read: bool, write: bool, create: bool) -> u64 {
    let r0 = PREOPEN_BASE_RIGHTS;
    let r1 = if read {
        r0 | PREOPEN_READ_RIGHTS
    } else {
        r0
    };
    let r2 = if write {
        r1 | PREOPEN_WRITE_RIGHTS
    } else {
        r1
    };
    if create {
        r2 | PREOPEN_CREATE_RIGHTS
    } else {
        r2
    }
}

/// The uses of the descriptor of a preopened directory: reading adds
/// `READ`, writing `WRITE`, `APPEND` and `TRUNCATE`, creating `CREATE`.
pub open spec fn preopen_open_flags(read: bool, write: bool, create: bool) -> u16 {
    let f0 = 0u16;
    let f1 = if read {
        f0 | READ
    } else {
        f0
    };
    let f2 = if write {
        f1 | (WRITE | APPEND | TRUNCATE)
    } else {
        f1
    };
    if create {
        f2 | CREATE
    } else {
        f2
    }
}

/// The item for a directory of the guest's own filesystem, which is
/// preopened for reading under its path.
pub open spec fn vfs_item(name: Seq<u8>) -> PreopenItem {
    PreopenItem {
        path: name,
        name,
        rights: PREOPEN_BASE_RIGHTS | PREOPEN_READ_RIGHTS,
        open_flags: READ,
        checked: false,
    }
}

/// The item for a preopened directory.
pub open spec fn dir_item(d: PreopenedDir) -> PreopenItem {
    PreopenItem {
        path: d.path@,
        name: match d.alias {
            Some(a) => a@,
            None => d.path@,
        },
        rights: preopen_rights(d.read, d.write, d.create),
        open_flags: preopen_open_flags(d.read, d.write, d.create),
        checked: true,
    }
}

/// The items to preopen: the directories of the guest's own filesystem,
/// then the preopened directories.
pub open spec fn items_of(vfs_preopens: Seq<Vec<u8>>, preopens: Seq<PreopenedDir>) -> Seq<
    PreopenItem,
> {
    Seq::new(vfs_preopens.len(), |i: int| vfs_item(vfs_preopens[i]@)) + Seq::new(
        preopens.len(),
        |i: int| dir_item(preopens[i]),
    )
}

/// Everything that setting up changes.
pub struct InitState {
    pub walk: WalkState,
    pub fds: Map<u32, Fd>,
    pub order: Seq<u32>,
    pub next_fd: u32,
    pub preopens: Seq<u32>,
    pub ref_cnts: Seq<u32>,
    pub offsets: Seq<u64>,
}

/// The kind of the inode of a preopened directory.
pub open spec fn preopen_kind(root_inode: Inode, path: Seq<u8>) -> KindView {
    KindView::Dir { parent: Some(root_inode), path, entries: Map::empty() }
}

/// Why an item cannot be preopened before anything is made, if anything:
/// the root filesystem does not know the path of a checked item, or has
/// no directory there, or the inode has no statistics.
pub open spec fn preopen_refusal<R: FileSystem>(
    root: R::V,
    s: InitState,
    item: PreopenItem,
    root_inode: Inode,
) -> Option<PreopenErrorView> {
    let env = WalkEnv { root, fds: s.fds, preopens: s.preopens };
    if item.checked && R::metadata_spec(root, item.path).is_err() {
        Some(
            PreopenErrorView::Metadata {
                path: item.path,
                error: R::metadata_spec(root, item.path).unwrap_err(),
            },
        )
    } else if item.checked && R::metadata_spec(root, item.path).unwrap().ft != FileType::Dir {
        Some(PreopenErrorView::NotDirectory { path: item.path })
    } else {
        match stat_for_kind_spec::<R>(env, s.walk.nodes, preopen_kind(root_inode, item.path)) {
            Err(e) => Some(PreopenErrorView::CreateInode { name: item.name, errno: e }),
            Ok(_) => None,
        }
    }
}

/// Whether the root has an entry of the item's name already.
pub open spec fn is_duplicate(s: InitState, item: PreopenItem, root_inode: Inode) -> bool {
    s.walk.nodes.contains_key(root_inode) && match entries_of(s.walk.nodes[root_inode].kind) {
        Some(entries) => entries.contains_key(item.name),
        None => false,
    }
}

/// A count with one put on, around the end of its range.
pub open spec fn next_number(n: u32) -> u32 {
    if n == u32::MAX {
        0
    } else {
        (n + 1) as u32
    }
}

/// The state after the inode of an item was made under the handle `i`,
/// given a descriptor under the next number, and kept as an entry of the
/// root.
pub open spec fn preopen_added<R: FileSystem>(
    root: R::V,
    s: InitState,
    item: PreopenItem,
    root_inode: Inode,
    i: Inode,
) -> InitState {
    let env = WalkEnv { root, fds: s.fds, preopens: s.preopens };
    let stat = stat_for_kind_spec::<R>(
        env,
        s.walk.nodes,
        preopen_kind(root_inode, item.path),
    ).unwrap();
    let w = with_inode(
        s.walk,
        i,
        InodeValView {
            stat,
            is_preopened: true,
            name: item.name,
            kind: preopen_kind(root_inode, item.path),
        },
    );
    InitState {
        walk: WalkState { nodes: with_entry(w.nodes, root_inode, item.name, i), ..w },
        fds: s.fds.insert(
            s.next_fd,
            new_fd(
                item.rights,
                item.rights,
                0,
                item.open_flags,
                i,
                s.ref_cnts.len() as usize,
                s.offsets.len() as usize,
            ),
        ),
        order: if s.fds.contains_key(s.next_fd) {
            s.order
        } else {
            s.order.push(s.next_fd)
        },
        next_fd: next_number(s.next_fd),
        preopens: s.preopens,
        ref_cnts: s.ref_cnts.push(1u32),
        offsets: s.offsets.push(0u64),
    }
}

/// The state with the descriptor that was made last among the preopened
/// ones.
pub open spec fn preopen_pushed(before: InitState, s: InitState) -> InitState {
    InitState { preopens: s.preopens.push(before.next_fd), ..s }
}

/// Whether preopening the items `items[k..]`, one after the other, can end
/// with `res` in the state `s1`. Each item gets an inode under a handle
/// that was not in use, a descriptor under the next number, and an entry
/// of the root. The first item that cannot be preopened ends it, as does
/// the first whose name the root has already: its inode and descriptor
/// stay, and the entry of that name leads to it.
pub open spec fn preopens_rel<R: FileSystem>(
    root: R::V,
    s0: InitState,
    items: Seq<PreopenItem>,
    k: int,
    root_inode: Inode,
    res: Result<(), PreopenErrorView>,
    s1: InitState,
) -> bool
    decreases items.len() - k,
{
    if k < 0 || k > items.len() {
        false
    } else if k == items.len() {
        res.is_ok() && s1 == s0
    } else {
        match preopen_refusal::<R>(root, s0, items[k], root_inode) {
            Some(e) => res == Err::<(), PreopenErrorView>(e) && s1 == s0,
            None => exists|i: Inode| #[trigger]
                by_new(i) && !s0.walk.used.contains(i) && (if is_duplicate(
                    s0,
                    items[k],
                    root_inode,
                ) {
                    res == Err::<(), PreopenErrorView>(
                        PreopenErrorView::DuplicateEntry { alias: items[k].name },
                    ) && s1 == preopen_added::<R>(root, s0, items[k], root_inode, i)
                } else {
                    preopens_rel::<R>(
                        root,
                        preopen_pushed(s0, preopen_added::<R>(root, s0, items[k], root_inode, i)),
                        items,
                        k + 1,
                        root_inode,
                        res,
                        s1,
                    )
                }),
        }
    }
}

/// The inode of a standard stream: a character device that is a file with
/// an empty handle and a descriptor number of its own.
pub open spec fn std_dev_view(name: Seq<u8>, raw_fd: u32) -> InodeValView {
    InodeValView {
        stat: Filestat { st_filetype: Filetype::CharacterDevice, ..default_filestat() },
        is_preopened: true,
        name,
        kind: KindView::File {
            handle: Some(
                VirtualFileView { data: Seq::empty(), cursor: 0, accessed: 0, modified: 0, created: 0 },
            ),
            path: Seq::empty(),
            fd: Some(raw_fd),
        },
    }
}

/// The inode of the virtual root.
pub open spec fn root_view() -> InodeValView {
    InodeValView {
        stat: Filestat { st_filetype: Filetype::Directory, ..default_filestat() },
        is_preopened: true,
        name: root_name(),
        kind: KindView::Root { entries: Map::empty() },
    }
}

/// The state with the inode and the descriptor of a standard stream.
pub open spec fn with_std_dev(
    s: InitState,
    i: Inode,
    name: Seq<u8>,
    raw_fd: u32,
    rights: u64,
    flags: u16,
) -> InitState {
    InitState {
        walk: with_inode(s.walk, i, std_dev_view(name, raw_fd)),
        fds: s.fds.insert(
            raw_fd,
            new_fd(rights, 0, flags, 0, i, s.ref_cnts.len() as usize, s.offsets.len() as usize),
        ),
        order: if s.fds.contains_key(raw_fd) {
            s.order
        } else {
            s.order.push(raw_fd)
        },
        ref_cnts: s.ref_cnts.push(1u32),
        offsets: s.offsets.push(0u64),
        ..s
    }
}

/// The state with the inode and the descriptor of the virtual root, which
/// is the first of the preopened ones.
pub open spec fn with_root(s: InitState, i: Inode) -> InitState {
    InitState {
        walk: with_inode(s.walk, i, root_view()),
        fds: s.fds.insert(
            s.next_fd,
            new_fd(
                ALL_RIGHTS,
                ALL_RIGHTS,
                0,
                READ,
                i,
                s.ref_cnts.len() as usize,
                s.offsets.len() as usize,
            ),
        ),
        order: if s.fds.contains_key(s.next_fd) {
            s.order
        } else {
            s.order.push(s.next_fd)
        },
        next_fd: next_number(s.next_fd),
        preopens: s.preopens.push(s.next_fd),
        ref_cnts: s.ref_cnts.push(1u32),
        offsets: s.offsets.push(0u64),
        ..s
    }
}

/// The state before anything is set up, over a registry.
pub open spec fn blank_state(inodes: &WasiInodes) -> InitState {
    InitState {
        walk: WalkState {
            nodes: inodes@,
            used: Set::new(|i: Inode| inodes.in_use(i)),
            counter: FIRST_INODE_NUMBER,
        },
        fds: Map::empty(),
        order: Seq::empty(),
        next_fd: 3,
        preopens: Seq::empty(),
        ref_cnts: inodes.ref_cnts@,
        offsets: inodes.offsets@,
    }
}

/// The name `stdin`.
pub open spec fn stdin_name() -> Seq<u8> {
    seq![115u8, 116u8, 100u8, 105u8, 110u8]
}

/// The name `stdout`.
pub open spec fn stdout_name() -> Seq<u8> {
    seq![115u8, 116u8, 100u8, 111u8, 117u8, 116u8]
}

/// The name `stderr`.
pub open spec fn stderr_name() -> Seq<u8> {
    seq![115u8, 116u8, 100u8, 101u8, 114u8, 114u8]
}

/// The state with the standard streams and the virtual root, whose inodes
/// are under the four handles.
pub open spec fn started(s: InitState, i0: Inode, i1: Inode, i2: Inode, i3: Inode) -> InitState {
    with_root(
        with_std_dev(
            with_std_dev(
                with_std_dev(s, i0, stdin_name(), STDIN_FILENO, STDIN_DEFAULT_RIGHTS, 0),
                i1,
                stdout_name(),
                STDOUT_FILENO,
                STDOUT_DEFAULT_RIGHTS,
                FDFLAGS_APPEND,
            ),
            i2,
            stderr_name(),
            STDERR_FILENO,
            STDERR_DEFAULT_RIGHTS,
            FDFLAGS_APPEND,
        ),
        i3,
    )
}

impl WasiFs {
    /// Everything of this state and a registry that setting up changes.
    pub open spec fn init_state(&self, inodes: &WasiInodes) -> InitState {
        InitState {
            walk: self.walk_state(inodes),
            fds: self.fd_map@,
            order: self.fd_map.order(),
            next_fd: self.next_fd,
            preopens: self.preopen_fds@,
            ref_cnts: inodes.ref_cnts@,
            offsets: inodes.offsets@,
        }
    }

    /// Whether the state is as it is before the guest has done anything
    /// but for what setting up changes: the working directory is the
    /// root, and no package is united.
    pub open spec fn is_fresh(&self) -> bool {
        &&& self.name_map@ == Map::<Seq<u8>, Inode>::empty()
        &&& self.current_dir@ == root_name()
        &&& !self.is_wasix
        &&& self.has_unioned@.len() == 0
    }

    /// Makes the inode and the descriptor of a standard stream.
    fn create_std_dev_inner(
        &mut self,
        inodes: &mut WasiInodes,
        handle: VirtualFile,
        name: Vec<u8>,
        raw_fd: u32,
        rights: u64,
        fd_flags: u16,
    ) -> (i: Inode)
        requires
            handle@ == (VirtualFileView {
                data: Seq::empty(),
                cursor: 0,
                accessed: 0,
                modified: 0,
                created: 0,
            }),
        ensures
            !old(inodes).in_use(i),
            final(self).init_state(final(inodes)) == with_std_dev(
                old(self).init_state(old(inodes)),
                i,
                name@,
                raw_fd,
                rights,
                fd_flags,
            ),
            final(self).name_map == old(self).name_map,
            final(self).current_dir == old(self).current_dir,
            final(self).is_wasix == old(self).is_wasix,
            final(self).has_unioned == old(self).has_unioned,
            final(inodes).orphan_fds == old(inodes).orphan_fds,
            old(self).fd_map.wf() ==> final(self).fd_map.wf(),
    {
        let ghost s0 = self.init_state(inodes);
        let stat = Filestat {
            st_dev: 0,
            st_ino: 0,
            st_filetype: Filetype::CharacterDevice,
            st_nlink: 1,
            st_size: 0,
            st_atim: 0,
            st_mtim: 0,
            st_ctim: 0,
        };
        let kind = Kind::File { fd: Some(raw_fd), handle: Some(handle), path: Vec::new() };
        let ghost nv = name@;
        let inode = self.create_inode_with_stat(inodes, kind, true, name, stat);
        let ghost mid = self.walk_state(inodes);
        let _ = self.create_fd_ext(inodes, rights, 0, fd_flags, 0, inode, raw_fd);
        proof {
            let want = with_std_dev(s0, inode, nv, raw_fd, rights, fd_flags);
            assert(self.walk_state(inodes).nodes =~= mid.nodes);
            assert(self.walk_state(inodes).used =~= mid.used);
            assert(self.init_state(inodes).walk == want.walk);
            assert(self.init_state(inodes) == want);
        }
        inode
    }

    /// Makes the inode and the descriptor of standard output.
    fn create_stdout(&mut self, inodes: &mut WasiInodes) -> (i: Inode)
        ensures
            !old(inodes).in_use(i),
            final(self).init_state(final(inodes)) == with_std_dev(
                old(self).init_state(old(inodes)),
                i,
                stdout_name(),
                STDOUT_FILENO,
                STDOUT_DEFAULT_RIGHTS,
                FDFLAGS_APPEND,
            ),
            final(self).name_map == old(self).name_map,
            final(self).current_dir == old(self).current_dir,
            final(self).is_wasix == old(self).is_wasix,
            final(self).has_unioned == old(self).has_unioned,
            final(inodes).orphan_fds == old(inodes).orphan_fds,
            old(self).fd_map.wf() ==> final(self).fd_map.wf(),
    {
        let mut name: Vec<u8> = Vec::new();
        name.push(115);
        name.push(116);
        name.push(100);
        name.push(111);
        name.push(117);
        name.push(116);
        assert(name@ =~= stdout_name());
        let data: Vec<u8> = Vec::new();
        assert(data@ =~= Seq::<u8>::empty());
        self.create_std_dev_inner(
            inodes,
            VirtualFile::new(data, 0, 0, 0),
            name,
            STDOUT_FILENO,
            STDOUT_DEFAULT_RIGHTS,
            FDFLAGS_APPEND,
        )
    }

    /// Makes the inode and the descriptor of standard input.
    fn create_stdin(&mut self, inodes: &mut WasiInodes) -> (i: Inode)
        ensures
            !old(inodes).in_use(i),
            final(self).init_state(final(inodes)) == with_std_dev(
                old(self).init_state(old(inodes)),
                i,
                stdin_name(),
                STDIN_FILENO,
                STDIN_DEFAULT_RIGHTS,
                0,
            ),
            final(self).name_map == old(self).name_map,
            final(self).current_dir == old(self).current_dir,
            final(self).is_wasix == old(self).is_wasix,
            final(self).has_unioned == old(self).has_unioned,
            final(inodes).orphan_fds == old(inodes).orphan_fds,
            old(self).fd_map.wf() ==> final(self).fd_map.wf(),
    {
        let mut name: Vec<u8> = Vec::new();
        name.push(115);
        name.push(116);
        name.push(100);
        name.push(105);
        name.push(110);
        assert(name@ =~= stdin_name());
        let data: Vec<u8> = Vec::new();
        assert(data@ =~= Seq::<u8>::empty());
        self.create_std_dev_inner(
            inodes,
            VirtualFile::new(data, 0, 0, 0),
            name,
            STDIN_FILENO,
            STDIN_DEFAULT_RIGHTS,
            0,
        )
    }

    /// Makes the inode and the descriptor of standard error.
    fn create_stderr(&mut self, inodes: &mut WasiInodes) -> (i: Inode)
        ensures
            !old(inodes).in_use(i),
            final(self).init_state(final(inodes)) == with_std_dev(
                old(self).init_state(old(inodes)),
                i,
                stderr_name(),
                STDERR_FILENO,
                STDERR_DEFAULT_RIGHTS,
                FDFLAGS_APPEND,
            ),
            final(self).name_map == old(self).name_map,
            final(self).current_dir == old(self).current_dir,
            final(self).is_wasix == old(self).is_wasix,
            final(self).has_unioned == old(self).has_unioned,
            final(inodes).orphan_fds == old(inodes).orphan_fds,
            old(self).fd_map.wf() ==> final(self).fd_map.wf(),
    {
        let mut name: Vec<u8> = Vec::new();
        name.push(115);
        name.push(116);
        name.push(100);
        name.push(101);
        name.push(114);
        name.push(114);
        assert(name@ =~= stderr_name());
        let data: Vec<u8> = Vec::new();
        assert(data@ =~= Seq::<u8>::empty());
        self.create_std_dev_inner(
            inodes,
            VirtualFile::new(data, 0, 0, 0),
            name,
            STDERR_FILENO,
            STDERR_DEFAULT_RIGHTS,
            FDFLAGS_APPEND,
        )
    }

    /// Makes the inode of the virtual root.
    fn create_virtual_root(&mut self, inodes: &mut WasiInodes) -> (i: Inode)
        ensures
            !old(inodes).in_use(i),
            final(self).walk_state(final(inodes)) == with_inode(
                old(self).walk_state(old(inodes)),
                i,
                root_view(),
            ),
            old(self).same_but_counter(final(self)),
            final(inodes).orphan_fds == old(inodes).orphan_fds,
            final(inodes).ref_cnts == old(inodes).ref_cnts,
            final(inodes).offsets == old(inodes).offsets,
    {
        let stat = Filestat {
            st_dev: 0,
            st_ino: 0,
            st_filetype: Filetype::Directory,
            st_nlink: 1,
            st_size: 0,
            st_atim: 0,
            st_mtim: 0,
            st_ctim: 0,
        };
        let root_kind = Kind::Root { entries: DirEntries::new() };
        let mut name: Vec<u8> = Vec::new();
        name.push(SEP);
        assert(name@ =~= root_name());
        self.create_inode_with_stat(inodes, root_kind, true, name, stat)
    }

    /// The state with which every guest starts: the standard streams under
    /// the descriptors 0, 1 and 2, and the virtual root under the
    /// descriptor 3, which is the first of the preopened ones. Returns the
    /// state and the inode of the root.
    pub fn new_init(inodes: &mut WasiInodes) -> (r: (WasiFs, Inode))
        ensures
            r.0.is_fresh(),
            r.0.fd_map@.contains_key(0) && r.0.fd_map@.contains_key(1) && r.0.fd_map@.contains_key(
                2,
            ) && r.0.fd_map@.contains_key(3),
            r.1 == r.0.fd_map@[3].inode,
            !old(inodes).in_use(r.1),
            r.0.init_state(final(inodes)) == started(
                blank_state(old(inodes)),
                r.0.fd_map@[0].inode,
                r.0.fd_map@[1].inode,
                r.0.fd_map@[2].inode,
                r.0.fd_map@[3].inode,
            ),
            final(inodes).orphan_fds == old(inodes).orphan_fds,
            r.0.fd_map.wf(),
    {
        let mut current_dir: Vec<u8> = Vec::new();
        current_dir.push(SEP);
        assert(current_dir@ =~= root_name());
        let mut wasi_fs = WasiFs {
            preopen_fds: Vec::new(),
            name_map: DirEntries::new(),
            fd_map: FdTable::new(),
            next_fd: 3,
            inode_counter: FIRST_INODE_NUMBER,
            current_dir,
            is_wasix: false,
            has_unioned: Vec::new(),
        };
        proof {
            assert(wasi_fs.init_state(inodes).preopens =~= blank_state(inodes).preopens);
            assert(wasi_fs.init_state(inodes) == blank_state(inodes));
        }
        wasi_fs.create_stdin(inodes);
        wasi_fs.create_stdout(inodes);
        wasi_fs.create_stderr(inodes);
        let ghost s3 = wasi_fs.init_state(inodes);
        let ghost in3 = *inodes;
        let inode = wasi_fs.create_virtual_root(inodes);
        proof {
            assert(s3.walk.used.contains(inode) == in3.in_use(inode));
            assert(blank_state(old(inodes)).walk.used.contains(inode) == old(inodes).in_use(inode));
        }
        let ghost mid = wasi_fs.walk_state(inodes);
        let fd = wasi_fs.create_fd(inodes, ALL_RIGHTS, ALL_RIGHTS, 0, READ, inode);
        let fd = match fd {
            Ok(fd) => fd,
            Err(_) => 3,
        };
        wasi_fs.preopen_fds.push(fd);
        proof {
            let want = with_root(s3, inode);
            assert(wasi_fs.walk_state(inodes).nodes =~= mid.nodes);
            assert(wasi_fs.walk_state(inodes).used =~= mid.used);
            assert(wasi_fs.init_state(inodes).walk == want.walk);
            assert(wasi_fs.init_state(inodes) == want);
        }
        (wasi_fs, inode)
    }
}


/// Whether every end of preopening from the item `k` on is an end of
/// preopening from the first item on.
#[verifier::opaque]
pub open spec fn preopens_simulates<R: FileSystem>(
    root: R::V,
    s: InitState,
    k: int,
    s_init: InitState,
    items: Seq<PreopenItem>,
    root_inode: Inode,
) -> bool {
    forall|res: Result<(), PreopenErrorView>, fin: InitState| #[trigger]
        preopens_rel::<R>(root, s, items, k, root_inode, res, fin) ==> preopens_rel::<R>(
            root,
            s_init,
            items,
            0,
            root_inode,
            res,
            fin,
        )
}

proof fn lemma_preopens_start<R: FileSystem>(
    root: R::V,
    s: InitState,
    items: Seq<PreopenItem>,
    root_inode: Inode,
)
    ensures
        preopens_simulates::<R>(root, s, 0, s, items, root_inode),
{
    reveal(preopens_simulates);
}

proof fn lemma_preopens_end<R: FileSystem>(
    root: R::V,
    s: InitState,
    k: int,
    s_init: InitState,
    items: Seq<PreopenItem>,
    root_inode: Inode,
    res: Result<(), PreopenErrorView>,
    fin: InitState,
)
    requires
        preopens_simulates::<R>(root, s, k, s_init, items, root_inode),
        0 <= k <= items.len(),
        if k == items.len() {
            res.is_ok() && fin == s
        } else {
            match preopen_refusal::<R>(root, s, items[k], root_inode) {
                Some(e) => res == Err::<(), PreopenErrorView>(e) && fin == s,
                None => exists|i: Inode| #[trigger]
                    by_new(i) && !s.walk.used.contains(i) && is_duplicate(s, items[k], root_inode)
                        && res == Err::<(), PreopenErrorView>(
                        PreopenErrorView::DuplicateEntry { alias: items[k].name },
                    ) && fin == preopen_added::<R>(root, s, items[k], root_inode, i),
            }
        },
    ensures
        preopens_rel::<R>(root, s_init, items, 0, root_inode, res, fin),
{
    reveal(preopens_simulates);
    if k < items.len() && preopen_refusal::<R>(root, s, items[k], root_inode).is_none() {
        let i = choose|i: Inode| #[trigger]
            by_new(i) && !s.walk.used.contains(i) && is_duplicate(s, items[k], root_inode) && res
                == Err::<(), PreopenErrorView>(
                PreopenErrorView::DuplicateEntry { alias: items[k].name },
            ) && fin == preopen_added::<R>(root, s, items[k], root_inode, i);
        assert(by_new(i) && !s.walk.used.contains(i) && (if is_duplicate(s, items[k], root_inode) {
            res == Err::<(), PreopenErrorView>(
                PreopenErrorView::DuplicateEntry { alias: items[k].name },
            ) && fin == preopen_added::<R>(root, s, items[k], root_inode, i)
        } else {
            preopens_rel::<R>(
                root,
                preopen_pushed(s, preopen_added::<R>(root, s, items[k], root_inode, i)),
                items,
                k + 1,
                root_inode,
                res,
                fin,
            )
        }));
    }
    assert(preopens_rel::<R>(root, s, items, k, root_inode, res, fin));
}

proof fn lemma_preopens_step<R: FileSystem>(
    root: R::V,
    s: InitState,
    k: int,
    s_init: InitState,
    items: Seq<PreopenItem>,
    root_inode: Inode,
    i: Inode,
)
    requires
        preopens_simulates::<R>(root, s, k, s_init, items, root_inode),
        0 <= k < items.len(),
        preopen_refusal::<R>(root, s, items[k], root_inode).is_none(),
        !is_duplicate(s, items[k], root_inode),
        !s.walk.used.contains(i),
    ensures
        preopens_simulates::<R>(
            root,
            preopen_pushed(s, preopen_added::<R>(root, s, items[k], root_inode, i)),
            k + 1,
            s_init,
            items,
            root_inode,
        ),
{
    reveal(preopens_simulates);
    let next = preopen_pushed(s, preopen_added::<R>(root, s, items[k], root_inode, i));
    assert forall|res: Result<(), PreopenErrorView>, fin: InitState| #[trigger]
        preopens_rel::<R>(root, next, items, k + 1, root_inode, res, fin) implies preopens_rel::<R>(
        root,
        s_init,
        items,
        0,
        root_inode,
        res,
        fin,
    ) by {
        assert(by_new(i) && !s.walk.used.contains(i) && (if is_duplicate(s, items[k], root_inode) {
            res == Err::<(), PreopenErrorView>(
                PreopenErrorView::DuplicateEntry { alias: items[k].name },
            ) && fin == preopen_added::<R>(root, s, items[k], root_inode, i)
        } else {
            preopens_rel::<R>(
                root,
                preopen_pushed(s, preopen_added::<R>(root, s, items[k], root_inode, i)),
                items,
                k + 1,
                root_inode,
                res,
                fin,
            )
        }));
        assert(preopens_rel::<R>(root, s, items, k, root_inode, res, fin));
    }
}

/// The view of what setting up answered.
pub open spec fn setup_result(r: Result<(), PreopenError>) -> Result<(), PreopenErrorView> {
    match r {
        Ok(u) => Ok(u),
        Err(e) => Err(e@),
    }
}

/// Names a way that setting up can take: the handles of the standard
/// streams and of the root, and the state at the end.
pub open spec fn by_start(i0: Inode, i1: Inode, i2: Inode, i3: Inode, s1: InitState) -> bool {
    true
}

/// Whether setting up a registry for the items can end with `res` in the
/// state `s1`, the standard streams and the root having got the four
/// handles.
pub open spec fn setup_via<R: FileSystem>(
    root: R::V,
    before: &WasiInodes,
    items: Seq<PreopenItem>,
    res: Result<(), PreopenErrorView>,
    i0: Inode,
    i1: Inode,
    i2: Inode,
    i3: Inode,
    s1: InitState,
) -> bool {
    preopens_rel::<R>(root, started(blank_state(before), i0, i1, i2, i3), items, 0, i3, res, s1)
}

impl WasiFs {
    /// Preopens one directory under the root: makes its inode, gives it a
    /// descriptor under the next number, keeps it as an entry of the root
    /// under its name, and puts the descriptor among the preopened ones.
    ///
    /// Nothing changes when the root filesystem does not know the path of
    /// a checked directory (`Metadata`), has no directory there
    /// (`NotDirectory`), or the inode has no statistics (`CreateInode`).
    /// When the root has an entry of the name already, `DuplicateEntry`:
    /// the inode and the descriptor are made and the name leads to the new
    /// inode, but the descriptor is not among the preopened ones.
    pub fn add_preopen<R: FileSystem>(
        &mut self,
        inodes: &mut WasiInodes,
        root: &R,
        root_inode: Inode,
        path: &[u8],
        name: Vec<u8>,
        rights: u64,
        open_flags: u16,
        checked: bool,
    ) -> (r: Result<(), PreopenError>)
        requires
            root.inv(),
        ensures
            match preopen_refusal::<R>(
                root@,
                old(self).init_state(old(inodes)),
                PreopenItem { path: path@, name: name@, rights, open_flags, checked },
                root_inode,
            ) {
                Some(e) => {
                    &&& setup_result(r) == Err::<(), PreopenErrorView>(e)
                    &&& *final(self) == *old(self)
                    &&& *final(inodes) == *old(inodes)
                },
                None => {
                    &&& final(self).fd_map@.contains_key(old(self).next_fd)
                    &&& !old(inodes).in_use(final(self).fd_map@[old(self).next_fd].inode)
                    &&& if is_duplicate(
                        old(self).init_state(old(inodes)),
                        PreopenItem { path: path@, name: name@, rights, open_flags, checked },
                        root_inode,
                    ) {
                        &&& setup_result(r) == Err::<(), PreopenErrorView>(
                            PreopenErrorView::DuplicateEntry { alias: name@ },
                        )
                        &&& final(self).init_state(final(inodes)) == preopen_added::<R>(
                            root@,
                            old(self).init_state(old(inodes)),
                            PreopenItem { path: path@, name: name@, rights, open_flags, checked },
                            root_inode,
                            final(self).fd_map@[old(self).next_fd].inode,
                        )
                    } else {
                        &&& r.is_ok()
                        &&& final(self).init_state(final(inodes)) == preopen_pushed(
                            old(self).init_state(old(inodes)),
                            preopen_added::<R>(
                                root@,
                                old(self).init_state(old(inodes)),
                                PreopenItem { path: path@, name: name@, rights, open_flags, checked },
                                root_inode,
                                final(self).fd_map@[old(self).next_fd].inode,
                            ),
                        )
                    }
                },
            },
            final(self).name_map == old(self).name_map,
            final(self).current_dir == old(self).current_dir,
            final(self).is_wasix == old(self).is_wasix,
            final(self).has_unioned == old(self).has_unioned,
            old(self).fd_map.wf() ==> final(self).fd_map.wf(),
    {
        let ghost s0 = self.init_state(inodes);
        let ghost item = PreopenItem { path: path@, name: name@, rights, open_flags, checked };
        if checked {
            match root.metadata(path) {
                Err(e) => {
                    return Err(PreopenError::Metadata { path: slice_to_vec(path), error: e });
                },
                Ok(md) => {
                    if !md.is_dir() {
                        return Err(PreopenError::NotDirectory { path: slice_to_vec(path) });
                    }
                },
            }
        }
        let existing = match inodes.get_inodeval(root_inode) {
            Err(_) => false,
            Ok(iv) => match &iv.kind {
                Kind::Dir { parent, path, entries } => entries.contains_key(name.as_slice()),
                Kind::Root { entries } => entries.contains_key(name.as_slice()),
                _ => false,
            },
        };
        let kind = Kind::Dir {
            parent: Some(root_inode),
            path: slice_to_vec(path),
            entries: DirEntries::new(),
        };
        let inode = match self.create_inode(
            inodes,
            root,
            kind,
            true,
            slice_to_vec(name.as_slice()),
        ) {
            Ok(i) => i,
            Err(e) => {
                return Err(PreopenError::CreateInode { name, errno: e });
            },
        };
        let ghost mid = self.walk_state(inodes);
        let fd = match self.create_fd(inodes, rights, rights, 0, open_flags, inode) {
            Ok(fd) => fd,
            Err(_) => self.next_fd,
        };
        proof {
            assert(self.walk_state(inodes).nodes =~= mid.nodes);
            assert(self.walk_state(inodes).used =~= mid.used);
        }
        let alias = slice_to_vec(name.as_slice());
        self.attach_entry(inodes, root_inode, name, inode);
        proof {
            let want = preopen_added::<R>(root@, s0, item, root_inode, inode);
            assert(self.walk_state(inodes).used =~= want.walk.used);
            assert(self.init_state(inodes).walk == want.walk);
            assert(self.init_state(inodes) == want);
        }
        if existing {
            return Err(PreopenError::DuplicateEntry { alias });
        }
        self.preopen_fds.push(fd);
        Ok(())
    }

    /// Sets up the state of a guest: the standard streams, the virtual
    /// root, and under the root first the directories of the guest's own
    /// filesystem, preopened for reading under their paths, then the
    /// preopened directories, each under its alias or else its path and
    /// with the rights that its flags give.
    ///
    /// Fails at the first directory that cannot be preopened; what was
    /// put into the registry before stays there.
    #[verifier::loop_isolation(false)]
    pub fn new_with_preopen<R: FileSystem>(
        inodes: &mut WasiInodes,
        root: &R,
        preopens: &Vec<PreopenedDir>,
        vfs_preopens: &Vec<Vec<u8>>,
    ) -> (r: Result<WasiFs, PreopenError>)
        requires
            root.inv(),
        ensures
            exists|i0: Inode, i1: Inode, i2: Inode, i3: Inode, s1: InitState| #[trigger]
                by_start(i0, i1, i2, i3, s1) && setup_via::<R>(
                    root@,
                    old(inodes),
                    items_of(vfs_preopens@, preopens@),
                    match r {
                        Ok(_) => Ok(()),
                        Err(e) => Err(e@),
                    },
                    i0,
                    i1,
                    i2,
                    i3,
                    s1,
                ) && final(inodes)@ == s1.walk.nodes && final(inodes).ref_cnts@ == s1.ref_cnts
                    && final(inodes).offsets@ == s1.offsets && (match r {
                    Ok(fs) => fs.init_state(final(inodes)) == s1 && fs.is_fresh(),
                    Err(_) => true,
                }),
            match r {
                Ok(fs) => fs.fd_map.wf(),
                Err(_) => true,
            },
    {
        let (mut wasi_fs, root_inode) = WasiFs::new_init(inodes);
        let ghost i0 = wasi_fs.fd_map@[0].inode;
        let ghost i1 = wasi_fs.fd_map@[1].inode;
        let ghost i2 = wasi_fs.fd_map@[2].inode;
        let ghost s_init = wasi_fs.init_state(inodes);
        let ghost items = items_of(vfs_preopens@, preopens@);
        let ghost rootv = root@;
        let nv = vfs_preopens.len();
        let nd = preopens.len();
        proof {
            lemma_preopens_start::<R>(rootv, s_init, items, root_inode);
        }
        let mut k: usize = 0;
        while k < nv
            invariant
                root.inv(),
                0 <= k <= nv,
                nv == vfs_preopens@.len(),
                nd == preopens@.len(),
                items == items_of(vfs_preopens@, preopens@),
                items.len() == nv + nd,
                rootv == root@,
                wasi_fs.is_fresh(),
                wasi_fs.fd_map.wf(),
                preopens_simulates::<R>(
                    rootv,
                    wasi_fs.init_state(inodes),
                    k as int,
                    s_init,
                    items,
                    root_inode,
                ),
            decreases nv - k,
        {
            let ghost s_here = wasi_fs.init_state(inodes);
            let ghost in_here = *inodes;
            let name = slice_to_vec(vfs_preopens[k].as_slice());
            assert(items[k as int] == vfs_item(vfs_preopens@[k as int]@));
            let rights = PREOPEN_BASE_RIGHTS | PREOPEN_READ_RIGHTS;
            let ghost next = wasi_fs.next_fd;
            match wasi_fs.add_preopen(
                inodes,
                root,
                root_inode,
                vfs_preopens[k].as_slice(),
                name,
                rights,
                READ,
                false,
            ) {
                Err(e) => {
                    proof {
                        let fin = wasi_fs.init_state(inodes);
                        if preopen_refusal::<R>(rootv, s_here, items[k as int], root_inode).is_none() {
                            let i = wasi_fs.fd_map@[next].inode;
                            assert(s_here.walk.used.contains(i) == in_here.in_use(i));
                            assert(by_new(i) && !s_here.walk.used.contains(i) && is_duplicate(
                                s_here,
                                items[k as int],
                                root_inode,
                            ) && Err::<(), PreopenErrorView>(e@) == Err::<(), PreopenErrorView>(
                                PreopenErrorView::DuplicateEntry { alias: items[k as int].name },
                            ) && fin == preopen_added::<R>(
                                rootv,
                                s_here,
                                items[k as int],
                                root_inode,
                                i,
                            ));
                        }
                        lemma_preopens_end::<R>(
                            rootv,
                            s_here,
                            k as int,
                            s_init,
                            items,
                            root_inode,
                            Err(e@),
                            fin,
                        );
                        assert(by_start(i0, i1, i2, root_inode, fin) && setup_via::<R>(
                            rootv,
                            old(inodes),
                            items,
                            Err(e@),
                            i0,
                            i1,
                            i2,
                            root_inode,
                            fin,
                        ));
                    }
                    return Err(e);
                },
                Ok(_) => {
                    proof {
                        let i = wasi_fs.fd_map@[next].inode;
                        assert(s_here.walk.used.contains(i) == in_here.in_use(i));
                        lemma_preopens_step::<R>(
                            rootv,
                            s_here,
                            k as int,
                            s_init,
                            items,
                            root_inode,
                            i,
                        );
                    }
                },
            }
            k += 1;
        }
        let mut j: usize = 0;
        while j < nd
            invariant
                root.inv(),
                0 <= j <= nd,
                nv == vfs_preopens@.len(),
                nd == preopens@.len(),
                items == items_of(vfs_preopens@, preopens@),
                items.len() == nv + nd,
                rootv == root@,
                wasi_fs.is_fresh(),
                wasi_fs.fd_map.wf(),
                preopens_simulates::<R>(
                    rootv,
                    wasi_fs.init_state(inodes),
                    nv + j,
                    s_init,
                    items,
                    root_inode,
                ),
            decreases nd - j,
        {
            let ghost s_here = wasi_fs.init_state(inodes);
            let ghost in_here = *inodes;
            let d = &preopens[j];
            assert(items[nv + j] == dir_item(preopens@[j as int]));
            let mut rights = PREOPEN_BASE_RIGHTS;
            if d.read {
                rights = rights | PREOPEN_READ_RIGHTS;
            }
            if d.write {
                rights = rights | PREOPEN_WRITE_RIGHTS;
            }
            if d.create {
                rights = rights | PREOPEN_CREATE_RIGHTS;
            }
            let mut fd_flags: u16 = 0;
            if d.read {
                fd_flags = fd_flags | READ;
            }
            if d.write {
                fd_flags = fd_flags | (WRITE | APPEND | TRUNCATE);
            }
            if d.create {
                fd_flags = fd_flags | CREATE;
            }
            let name = match &d.alias {
                Some(a) => slice_to_vec(a.as_slice()),
                None => slice_to_vec(d.path.as_slice()),
            };
            let ghost next = wasi_fs.next_fd;
            match wasi_fs.add_preopen(
                inodes,
                root,
                root_inode,
                d.path.as_slice(),
                name,
                rights,
                fd_flags,
                true,
            ) {
                Err(e) => {
                    proof {
                        let fin = wasi_fs.init_state(inodes);
                        if preopen_refusal::<R>(rootv, s_here, items[nv + j], root_inode).is_none() {
                            let i = wasi_fs.fd_map@[next].inode;
                            assert(s_here.walk.used.contains(i) == in_here.in_use(i));
                            assert(by_new(i) && !s_here.walk.used.contains(i) && is_duplicate(
                                s_here,
                                items[nv + j],
                                root_inode,
                            ) && Err::<(), PreopenErrorView>(e@) == Err::<(), PreopenErrorView>(
                                PreopenErrorView::DuplicateEntry { alias: items[nv + j].name },
                            ) && fin == preopen_added::<R>(
                                rootv,
                                s_here,
                                items[nv + j],
                                root_inode,
                                i,
                            ));
                        }
                        lemma_preopens_end::<R>(
                            rootv,
                            s_here,
                            nv + j,
                            s_init,
                            items,
                            root_inode,
                            Err(e@),
                            fin,
                        );
                        assert(by_start(i0, i1, i2, root_inode, fin) && setup_via::<R>(
                            rootv,
                            old(inodes),
                            items,
                            Err(e@),
                            i0,
                            i1,
                            i2,
                            root_inode,
                            fin,
                        ));
                    }
                    return Err(e);
                },
                Ok(_) => {
                    proof {
                        let i = wasi_fs.fd_map@[next].inode;
                        assert(s_here.walk.used.contains(i) == in_here.in_use(i));
                        lemma_preopens_step::<R>(
                            rootv,
                            s_here,
                            nv + j,
                            s_init,
                            items,
                            root_inode,
                            i,
                        );
                    }
                },
            }
            j += 1;
        }
        proof {
            let fin = wasi_fs.init_state(inodes);
            lemma_preopens_end::<R>(rootv, fin, nv + nd, s_init, items, root_inode, Ok(()), fin);
            assert(by_start(i0, i1, i2, root_inode, fin) && setup_via::<R>(
                rootv,
                old(inodes),
                items,
                Ok(()),
                i0,
                i1,
                i2,
                root_inode,
                fin,
            ));
        }
        Ok(wasi_fs)
    }
}

} // verus!
