//! The walk along a path, from an inode to the inode that the path leads
//! to.
//!
//! The walk goes component by component through the entries of directories.
//! An entry that is not known yet is asked of the root filesystem and
//! kept. Where the walk stands on a link, the link's target is resolved
//! and put in its place; this happens at most `MAX_SYMLINKS` times, one
//! inside the other.
use crate::errors::errno_of;
use crate::errors::fs_error_into_wasi_err;
use crate::errors::Errno;
use crate::path::components;
use crate::path::components_of;
use crate::path::cur_name;
use crate::path::is_cur;
use crate::path::is_parent;
use crate::path::is_root;
use crate::path::join;
use crate::path::names_of;
use crate::path::parent;
use crate::path::parent_name;
use crate::path::parent_of;
use crate::path::push_component;
use crate::path::root_name;
use crate::path::strip_prefix;
use crate::path::strip_prefix_of;
use crate::path::SEP;
use crate::state::entries::DirEntries;
use crate::state::fd::Fd;
use crate::state::fs::stat_for_kind_spec;
use crate::state::fs::with_entry;
use crate::state::fs::with_inode;
use crate::state::fs::WalkEnv;
use crate::state::fs::WalkState;
use crate::state::fs::WasiFs;
use crate::state::inodes::Inode;
use crate::state::inodes::InodeValView;
use crate::state::inodes::Kind;
use crate::state::inodes::KindView;
use crate::state::inodes::WasiInodes;
use crate::state::types::default_filestat;
use crate::state::types::Filestat;
use crate::state::types::Filetype;
use crate::state::types::MAX_SYMLINKS;
use crate::vfs::FileSystem;
use crate::vfs::FileType;
use vstd::prelude::*;
use vstd::slice::slice_to_vec;

verus! {

/// The path of the directory that a preopened descriptor stands for: the
/// directory's own path, and `/` for the virtual root.
pub open spec fn preopen_path(
    fds: Map<u32, Fd>,
    nodes: Map<Inode, InodeValView>,
    fd: u32,
) -> Result<Seq<u8>, Errno> {
    if !fds.contains_key(fd) || !nodes.contains_key(fds[fd].inode) {
        Err(Errno::Badf)
    } else {
        match nodes[fds[fd].inode].kind {
            KindView::Dir { parent, path, entries } => Ok(path),
            KindView::Root { entries } => Ok(root_name()),
            _ => Err(Errno::Inval),
        }
    }
}

/// The best match among the first `k` preopened descriptors: the
/// descriptor, what is left of the path behind its directory, and the
/// length of that directory's path. Of two directories that lead the path
/// the one with the longer path is the better, and of two with paths of
/// one length the later.
pub open spec fn best_preopen_upto(
    fds: Map<u32, Fd>,
    preopens: Seq<u32>,
    nodes: Map<Inode, InodeValView>,
    path: Seq<u8>,
    k: int,
) -> Result<Option<(u32, Seq<u8>, nat)>, Errno>
    decreases k,
{
    if k <= 0 {
        Ok(None)
    } else {
        match best_preopen_upto(fds, preopens, nodes, path, k - 1) {
            Err(e) => Err(e),
            Ok(prev) => match preopen_path(fds, nodes, preopens[k - 1]) {
                Err(e) => Err(e),
                Ok(po) => match strip_prefix_of(path, po) {
                    Some(rel) => if po.len() >= (match prev {
                        Some(m) => m.2,
                        None => 0,
                    }) {
                        Ok(Some((preopens[k - 1], rel, po.len())))
                    } else {
                        Ok(prev)
                    },
                    None => Ok(prev),
                },
            },
        }
    }
}

/// The preopened descriptor whose directory leads the path with the
/// longest path of its own, and what is left of the path behind it.
/// `Inval` when no directory leads the path.
pub open spec fn preopen_match(
    fds: Map<u32, Fd>,
    preopens: Seq<u32>,
    nodes: Map<Inode, InodeValView>,
    path: Seq<u8>,
) -> Result<(u32, Seq<u8>), Errno> {
    match best_preopen_upto(fds, preopens, nodes, path, preopens.len() as int) {
        Err(e) => Err(e),
        Ok(None) => Err(Errno::Inval),
        Ok(Some(m)) => Ok((m.0, m.1)),
    }
}

/// What one step of a walk does before any inode is made.
pub enum StepPlan {
    /// Go on at this inode; nothing changes.
    Move(Inode),
    /// Stop with this error; nothing changes.
    Fail(Errno),
    /// Make an inode of this kind, name and statistics; keep it as an entry
    /// of the directory if `attach` says so; then go on at it.
    Make { kind: KindView, name: Seq<u8>, stat: Filestat, attach: bool },
}

/// How one step of a walk ended.
#[derive(Clone, Copy, Debug, PartialEq, Eq, Structural)]
pub enum StepOut {
    /// The walk goes on at this inode.
    Next(Inode),
    /// The walk failed.
    Fail(Errno),
}

/// The plan to make an inode of a kind, with the statistics of the kind.
pub open spec fn make_plan<R: FileSystem>(
    env: WalkEnv<R::V>,
    st: WalkState,
    kind: KindView,
    name: Seq<u8>,
    attach: bool,
) -> StepPlan {
    match stat_for_kind_spec::<R>(env, st.nodes, kind) {
        Err(e) => StepPlan::Fail(e),
        Ok(stat) => StepPlan::Make { kind, name, stat, attach },
    }
}

/// The plan to make the inode of a special file: a file whose statistics
/// say what it is and nothing else.
pub open spec fn device_plan(file: Seq<u8>, ft: Filetype) -> StepPlan {
    StepPlan::Make {
        kind: KindView::File { handle: None, path: file, fd: None },
        name: file,
        stat: Filestat { st_filetype: ft, ..default_filestat() },
        attach: true,
    }
}

/// The plan for a name that is not among the entries of a directory yet:
/// what the root filesystem has under the name decides.
pub open spec fn miss_plan<R: FileSystem>(
    env: WalkEnv<R::V>,
    st: WalkState,
    cur: Inode,
    dir_path: Seq<u8>,
    comp: Seq<u8>,
) -> StepPlan {
    let file = push_component(dir_path, comp);
    match R::symlink_metadata_spec(env.root, file) {
        Err(_) => StepPlan::Fail(Errno::Noent),
        Ok(md) => match md.ft {
            FileType::Dir => make_plan::<R>(
                env,
                st,
                KindView::Dir { parent: Some(cur), path: file, entries: Map::empty() },
                file,
                true,
            ),
            FileType::File => make_plan::<R>(
                env,
                st,
                KindView::File { handle: None, path: file, fd: None },
                file,
                true,
            ),
            FileType::Symlink => match R::read_link_spec(env.root, file) {
                Err(e) => StepPlan::Fail(errno_of(e)),
                Ok(target) => match preopen_match(env.fds, env.preopens, st.nodes, file) {
                    Err(e) => StepPlan::Fail(e),
                    Ok(m) => make_plan::<R>(
                        env,
                        st,
                        KindView::Symlink {
                            base_po_dir: m.0,
                            path_to_symlink: m.1,
                            relative_path: target,
                        },
                        file,
                        false,
                    ),
                },
            },
            FileType::CharDevice => device_plan(file, Filetype::CharacterDevice),
            FileType::BlockDevice => device_plan(file, Filetype::BlockDevice),
            FileType::Fifo => device_plan(file, Filetype::Unknown),
            FileType::Socket => device_plan(file, Filetype::SocketStream),
            FileType::Unknown => StepPlan::Fail(Errno::Inval),
        },
    }
}

/// The plan for one component at an inode that is not a link.
///
/// At a directory `..` leads to the directory above and `.` nowhere; the
/// root component leads out of the directory and is refused; any other
/// name leads to the entry of that name, which is made if it is missing.
/// At the root `..` and `.` lead nowhere, and a name leads to the
/// preopened directory of that name. Nothing else can be walked through.
pub open spec fn step_plan<R: FileSystem>(
    env: WalkEnv<R::V>,
    st: WalkState,
    cur: Inode,
    comp: Seq<u8>,
) -> StepPlan {
    if !st.nodes.contains_key(cur) {
        StepPlan::Fail(Errno::Badf)
    } else {
        match st.nodes[cur].kind {
            KindView::Dir { parent, path, entries } => {
                if comp == parent_name() {
                    match parent {
                        Some(p) => StepPlan::Move(p),
                        None => StepPlan::Fail(Errno::Access),
                    }
                } else if comp == cur_name() {
                    StepPlan::Move(cur)
                } else if comp == root_name() {
                    StepPlan::Fail(Errno::Notcapable)
                } else if entries.contains_key(comp) {
                    StepPlan::Move(entries[comp])
                } else {
                    miss_plan::<R>(env, st, cur, path, comp)
                }
            },
            KindView::Root { entries } => {
                if comp == parent_name() || comp == cur_name() {
                    StepPlan::Move(cur)
                } else if entries.contains_key(comp) {
                    StepPlan::Move(entries[comp])
                } else {
                    StepPlan::Fail(Errno::Notcapable)
                }
            },
            KindView::Symlink { base_po_dir, path_to_symlink, relative_path } => StepPlan::Fail(
                Errno::Inval,
            ),
            _ => StepPlan::Fail(Errno::Notdir),
        }
    }
}

/// The state after a planned inode was made under the handle `i`.
pub open spec fn made(
    st: WalkState,
    i: Inode,
    kind: KindView,
    name: Seq<u8>,
    stat: Filestat,
    attach: bool,
    cur: Inode,
    comp: Seq<u8>,
) -> WalkState {
    let st1 = with_inode(st, i, InodeValView { stat, is_preopened: false, name, kind });
    if attach {
        WalkState { nodes: with_entry(st1.nodes, cur, comp, i), ..st1 }
    } else {
        st1
    }
}

/// Whether making a planned inode under the handle `i` ends with `out` in
/// the state `st1`.
pub open spec fn make_ok(
    st0: WalkState,
    i: Inode,
    plan: StepPlan,
    cur: Inode,
    comp: Seq<u8>,
    out: StepOut,
    st1: WalkState,
) -> bool {
    match plan {
        StepPlan::Make { kind, name, stat, attach } => {
            &&& !st0.used.contains(i)
            &&& made(st0, i, kind, name, stat, attach, cur, comp) == st1
            &&& out == StepOut::Next(i)
        },
        _ => false,
    }
}

/// Whether a plan can end with `out` in the state `st1`: a plan that
/// makes an inode makes it under a handle that was not in use.
pub open spec fn plan_rel(
    plan: StepPlan,
    st0: WalkState,
    cur: Inode,
    comp: Seq<u8>,
    out: StepOut,
    st1: WalkState,
) -> bool {
    match plan {
        StepPlan::Move(c) => out == StepOut::Next(c) && st1 == st0,
        StepPlan::Fail(e) => out == StepOut::Fail(e) && st1 == st0,
        StepPlan::Make { kind, name, stat, attach } => exists|i: Inode| #[trigger]
            make_ok(st0, i, plan, cur, comp, out, st1),
    }
}

/// Whether a step from `cur` over `comp` can end with `out` in the state
/// `st1`.
pub open spec fn step_rel<R: FileSystem>(
    env: WalkEnv<R::V>,
    st0: WalkState,
    cur: Inode,
    comp: Seq<u8>,
    out: StepOut,
    st1: WalkState,
) -> bool {
    plan_rel(step_plan::<R>(env, st0, cur, comp), st0, cur, comp, out, st1)
}

/// A path without its last component, or the path itself if it has none
/// to lose.
pub open spec fn popped(p: Seq<u8>) -> Seq<u8> {
    match parent_of(p) {
        Some(up) => up,
        None => p,
    }
}

/// Where the walk to a link's target starts, and the path it takes from
/// there. An absolute target is taken from the preopened directory that
/// matches it best; any other from the link's own preopened directory,
/// along the path to the directory that holds the link.
pub open spec fn link_start(
    fds: Map<u32, Fd>,
    preopens: Seq<u32>,
    nodes: Map<Inode, InodeValView>,
    base_po_dir: u32,
    path_to_symlink: Seq<u8>,
    target: Seq<u8>,
) -> Result<(Inode, Seq<u8>), Errno> {
    if target.len() > 0 && target[0] == SEP {
        match preopen_match(fds, preopens, nodes, target) {
            Err(e) => Err(e),
            Ok(m) => if fds.contains_key(m.0) {
                Ok((fds[m.0].inode, m.1))
            } else {
                Err(Errno::Badf)
            },
        }
    } else if !fds.contains_key(base_po_dir) {
        Err(Errno::Badf)
    } else {
        Ok((fds[base_po_dir].inode, push_component(popped(path_to_symlink), target)))
    }
}

/// The link that the walk has to replace before it can go on: the inode
/// at which it stands, if that is a link and either components are left or
/// the link was reached by the walk itself and links are followed.
pub open spec fn pending_link(
    st: WalkState,
    cur: Inode,
    n: int,
    i: int,
    follow: bool,
) -> Option<(u32, Seq<u8>, Seq<u8>)> {
    if !st.nodes.contains_key(cur) {
        None
    } else {
        match st.nodes[cur].kind {
            KindView::Symlink { base_po_dir, path_to_symlink, relative_path } => if i < n || (follow
                && i > 0) {
                Some((base_po_dir, path_to_symlink, relative_path))
            } else {
                None
            },
            _ => None,
        }
    }
}

/// Names a way that a walk can take by a link: what the link's target
/// resolved to, the state then, and the number of targets in place then.
pub open spec fn by_link(r: Result<Inode, Errno>, stm: WalkState, mid: int) -> bool {
    true
}

/// Names a way that a walk can take by a step: how the step ended, and the
/// state then.
pub open spec fn by_step(out: StepOut, stm: WalkState) -> bool {
    true
}

/// Names the number of targets in place at the end of a walk.
pub open spec fn by_end(end: int) -> bool {
    true
}

/// Whether the walk over the components `comps[i..]`, from `cur` and with
/// `count` targets put in place so far, can end with `res` in the state
/// `st1` and with `end` targets in place.
///
/// Every target that is put in the place of a link counts, whether the
/// walk to it is inside another such walk or comes after it, and no walk
/// goes on with more than `MAX_SYMLINKS` in place.
pub open spec fn walk_rel<R: FileSystem>(
    env: WalkEnv<R::V>,
    st0: WalkState,
    cur: Inode,
    comps: Seq<Seq<u8>>,
    i: int,
    count: int,
    follow: bool,
    res: Result<Inode, Errno>,
    st1: WalkState,
    end: int,
) -> bool
    decreases MAX_SYMLINKS - count, comps.len() - i, 1int,
{
    if count < 0 || count > MAX_SYMLINKS || i < 0 || i > comps.len() {
        false
    } else {
        match pending_link(st0, cur, comps.len() as int, i, follow) {
            Some(link) => {
                if count >= MAX_SYMLINKS {
                    res == Err::<Inode, Errno>(Errno::Mlink) && st1 == st0 && end == count
                } else {
                    match link_start(env.fds, env.preopens, st0.nodes, link.0, link.1, link.2) {
                        Err(e) => res == Err::<Inode, Errno>(e) && st1 == st0 && end == count,
                        Ok(start) => exists|r: Result<Inode, Errno>, stm: WalkState, mid: int| #[trigger]
                            by_link(r, stm, mid) && link_via::<R>(
                                env,
                                st0,
                                start,
                                comps,
                                i,
                                count,
                                follow,
                                res,
                                st1,
                                end,
                                r,
                                stm,
                                mid,
                            ),
                    }
                }
            },
            None => {
                if i >= comps.len() {
                    res == Ok::<Inode, Errno>(cur) && st1 == st0 && end == count
                } else {
                    exists|out: StepOut, stm: WalkState| #[trigger]
                        by_step(out, stm) && step_via::<R>(
                            env,
                            st0,
                            cur,
                            comps,
                            i,
                            count,
                            follow,
                            res,
                            st1,
                            end,
                            out,
                            stm,
                        )
                }
            },
        }
    }
}

/// Whether the walk can end with `res` in `st1` and `end` targets in place
/// by way of a link whose target resolved to `r` in the state `stm` with
/// `mid` targets in place. The walk goes on with all of them counted.
pub open spec fn link_via<R: FileSystem>(
    env: WalkEnv<R::V>,
    st0: WalkState,
    start: (Inode, Seq<u8>),
    comps: Seq<Seq<u8>>,
    i: int,
    count: int,
    follow: bool,
    res: Result<Inode, Errno>,
    st1: WalkState,
    end: int,
    r: Result<Inode, Errno>,
    stm: WalkState,
    mid: int,
) -> bool
    decreases MAX_SYMLINKS - count, comps.len() - i, 0int,
{
    if count < 0 || count >= MAX_SYMLINKS || i < 0 || i > comps.len() {
        false
    } else {
        &&& resolve_rel::<R>(env, st0, start.0, start.1, count + 1, follow, r, stm, mid)
        &&& match r {
            Err(e) => res == Err::<Inode, Errno>(e) && st1 == stm && end == mid,
            Ok(t) => count < mid <= MAX_SYMLINKS && walk_rel::<R>(
                env,
                stm,
                t,
                comps,
                i,
                mid,
                follow,
                res,
                st1,
                end,
            ),
        }
    }
}

/// Whether the walk can end with `res` in `st1` and `end` targets in place
/// by way of a step that ended with `out` in the state `stm`.
pub open spec fn step_via<R: FileSystem>(
    env: WalkEnv<R::V>,
    st0: WalkState,
    cur: Inode,
    comps: Seq<Seq<u8>>,
    i: int,
    count: int,
    follow: bool,
    res: Result<Inode, Errno>,
    st1: WalkState,
    end: int,
    out: StepOut,
    stm: WalkState,
) -> bool
    decreases MAX_SYMLINKS - count, comps.len() - i, 0int,
{
    if count < 0 || count > MAX_SYMLINKS || i < 0 || i >= comps.len() {
        false
    } else {
        &&& step_rel::<R>(env, st0, cur, comps[i], out, stm)
        &&& match out {
            StepOut::Next(c) => walk_rel::<R>(env, stm, c, comps, i + 1, count, follow, res, st1, end),
            StepOut::Fail(e) => res == Err::<Inode, Errno>(e) && st1 == stm && end == count,
        }
    }
}

/// Whether resolving `path` from `base`, with `count` targets put in place
/// so far, can end with `res` in the state `st1` and with `end` targets in
/// place. With more than `MAX_SYMLINKS` targets in place it ends with
/// `Mlink`.
pub open spec fn resolve_rel<R: FileSystem>(
    env: WalkEnv<R::V>,
    st0: WalkState,
    base: Inode,
    path: Seq<u8>,
    count: int,
    follow: bool,
    res: Result<Inode, Errno>,
    st1: WalkState,
    end: int,
) -> bool
    decreases MAX_SYMLINKS - count, components_of(path).len() + 1, 0int,
{
    if count < 0 {
        false
    } else if count > MAX_SYMLINKS {
        res == Err::<Inode, Errno>(Errno::Mlink) && st1 == st0 && end == count
    } else {
        walk_rel::<R>(env, st0, base, components_of(path), 0, count, follow, res, st1, end)
    }
}

/// Whether resolving `path` from `base`, with `count` targets put in place
/// so far, can end with `res` in the state `st1`.
pub open spec fn resolves<R: FileSystem>(
    env: WalkEnv<R::V>,
    st0: WalkState,
    base: Inode,
    path: Seq<u8>,
    count: int,
    follow: bool,
    res: Result<Inode, Errno>,
    st1: WalkState,
) -> bool {
    exists|end: int| #[trigger] by_end(end) && resolve_rel::<R>(
        env,
        st0,
        base,
        path,
        count,
        follow,
        res,
        st1,
        end,
    )
}

/// Once a preopened descriptor has made the search fail, it has failed.
proof fn lemma_preopen_error_sticks(
    fds: Map<u32, Fd>,
    preopens: Seq<u32>,
    nodes: Map<Inode, InodeValView>,
    path: Seq<u8>,
    k: int,
    n: int,
)
    requires
        0 <= k <= n,
        best_preopen_upto(fds, preopens, nodes, path, k).is_err(),
    ensures
        best_preopen_upto(fds, preopens, nodes, path, n) == best_preopen_upto(
            fds,
            preopens,
            nodes,
            path,
            k,
        ),
    decreases n,
{
    if n > k {
        lemma_preopen_error_sticks(fds, preopens, nodes, path, k, n - 1);
    }
}

/// The view of a best match so far.
pub open spec fn match_view(m: Option<(u32, Vec<u8>, usize)>) -> Option<(u32, Seq<u8>, nat)> {
    match m {
        Some(x) => Some((x.0, x.1@, x.2 as nat)),
        None => None,
    }
}

impl WasiFs {
    /// Finds the preopened directory that matches a path best, and what is
    /// left of the path behind it.
    ///
    /// The best match is the directory whose own path is the longest among
    /// those that lead the given path; of two of one length the later
    /// wins. `Inval` when none leads the path; `Badf` when a preopened
    /// descriptor or its inode is missing, and `Inval` when it is no
    /// directory.
    #[verifier::loop_isolation(false)]
    pub fn path_into_pre_open_and_relative_path(&self, inodes: &WasiInodes, path: &[u8]) -> (r:
        Result<(u32, Vec<u8>), Errno>)
        ensures
            match r {
                Ok(m) => preopen_match(self.fd_map@, self.preopen_fds@, inodes@, path@) == Ok::<
                    (u32, Seq<u8>),
                    Errno,
                >((m.0, m.1@)),
                Err(e) => preopen_match(self.fd_map@, self.preopen_fds@, inodes@, path@) == Err::<
                    (u32, Seq<u8>),
                    Errno,
                >(e),
            },
    {
        let mut best: Option<(u32, Vec<u8>, usize)> = None;
        let mut k: usize = 0;
        let n = self.preopen_fds.len();
        while k < n
            invariant
                0 <= k <= n,
                n == self.preopen_fds@.len(),
                best_preopen_upto(self.fd_map@, self.preopen_fds@, inodes@, path@, k as int) == Ok::<
                    Option<(u32, Seq<u8>, nat)>,
                    Errno,
                >(match_view(best)),
            decreases n - k,
        {
            let po_fd = self.preopen_fds[k];
            let ghost step = best_preopen_upto(
                self.fd_map@,
                self.preopen_fds@,
                inodes@,
                path@,
                k + 1,
            );
            let po_inode = match self.fd_map.get(po_fd) {
                Some(f) => f.inode,
                None => {
                    proof {
                        assert(step == Err::<Option<(u32, Seq<u8>, nat)>, Errno>(Errno::Badf));
                        lemma_preopen_error_sticks(
                            self.fd_map@,
                            self.preopen_fds@,
                            inodes@,
                            path@,
                            k + 1,
                            n as int,
                        );
                    }
                    return Err(Errno::Badf);
                },
            };
            let iv = match inodes.get_inodeval(po_inode) {
                Ok(iv) => iv,
                Err(e) => {
                    proof {
                        assert(step == Err::<Option<(u32, Seq<u8>, nat)>, Errno>(Errno::Badf));
                        lemma_preopen_error_sticks(
                            self.fd_map@,
                            self.preopen_fds@,
                            inodes@,
                            path@,
                            k + 1,
                            n as int,
                        );
                    }
                    return Err(Errno::Badf);
                },
            };
            let (stripped, len) = match &iv.kind {
                Kind::Dir { parent, path: po_path, entries } => (
                    strip_prefix(path, po_path.as_slice()),
                    po_path.len(),
                ),
                Kind::Root { entries } => {
                    let mut slash: Vec<u8> = Vec::new();
                    slash.push(SEP);
                    assert(slash@ =~= root_name());
                    (strip_prefix(path, slash.as_slice()), 1usize)
                },
                _ => {
                    proof {
                        assert(step == Err::<Option<(u32, Seq<u8>, nat)>, Errno>(Errno::Inval));
                        lemma_preopen_error_sticks(
                            self.fd_map@,
                            self.preopen_fds@,
                            inodes@,
                            path@,
                            k + 1,
                            n as int,
                        );
                    }
                    return Err(Errno::Inval);
                },
            };
            let max_seen = match &best {
                Some(m) => m.2,
                None => 0,
            };
            if let Some(rel) = stripped {
                if len >= max_seen {
                    best = Some((po_fd, rel, len));
                }
            }
            k += 1;
        }
        match best {
            None => Err(Errno::Inval),
            Some(m) => Ok((m.0, m.1)),
        }
    }

    /// The link at an inode: its preopened directory, the path to it, and
    /// its target. None when the inode is missing or is no link.
    fn link_at(&self, inodes: &WasiInodes, cur: Inode) -> (r: Option<(u32, Vec<u8>, Vec<u8>)>)
        ensures
            match r {
                Some(l) => inodes@.contains_key(cur) && inodes@[cur].kind == (KindView::Symlink {
                    base_po_dir: l.0,
                    path_to_symlink: l.1@,
                    relative_path: l.2@,
                }),
                None => !inodes@.contains_key(cur) || !(inodes@[cur].kind is Symlink),
            },
    {
        match inodes.get_inodeval(cur) {
            Err(_) => None,
            Ok(iv) => match &iv.kind {
                Kind::Symlink { base_po_dir, path_to_symlink, relative_path } => Some(
                    (
                        *base_po_dir,
                        slice_to_vec(path_to_symlink.as_slice()),
                        slice_to_vec(relative_path.as_slice()),
                    ),
                ),
                _ => None,
            },
        }
    }

    /// Where the walk to a link's target starts, and the path it takes.
    fn start_of_link(
        &self,
        inodes: &WasiInodes,
        base_po_dir: u32,
        path_to_symlink: &[u8],
        target: &[u8],
    ) -> (r: Result<(Inode, Vec<u8>), Errno>)
        ensures
            match r {
                Ok(s) => link_start(
                    self.fd_map@,
                    self.preopen_fds@,
                    inodes@,
                    base_po_dir,
                    path_to_symlink@,
                    target@,
                ) == Ok::<(Inode, Seq<u8>), Errno>((s.0, s.1@)),
                Err(e) => link_start(
                    self.fd_map@,
                    self.preopen_fds@,
                    inodes@,
                    base_po_dir,
                    path_to_symlink@,
                    target@,
                ) == Err::<(Inode, Seq<u8>), Errno>(e),
            },
    {
        if target.len() > 0 && target[0] == SEP {
            match self.path_into_pre_open_and_relative_path(inodes, target) {
                Err(e) => Err(e),
                Ok(m) => match self.fd_map.get(m.0) {
                    Some(f) => Ok((f.inode, m.1)),
                    None => Err(Errno::Badf),
                },
            }
        } else {
            match self.fd_map.get(base_po_dir) {
                None => Err(Errno::Badf),
                Some(f) => {
                    let mut base = match parent(path_to_symlink) {
                        Some(up) => up,
                        None => slice_to_vec(path_to_symlink),
                    };
                    crate::path::push(&mut base, target);
                    Ok((f.inode, base))
                },
            }
        }
    }
}

impl WasiFs {
    /// Makes the inode of a planned kind, keeps it as an entry of `cur` if
    /// it is to be kept, and goes on at it.
    fn make_node<R: FileSystem>(
        &mut self,
        inodes: &mut WasiInodes,
        root: &R,
        cur: Inode,
        comp: &[u8],
        kind: Kind,
        name: Vec<u8>,
        attach: bool,
    ) -> (out: StepOut)
        requires
            root.inv(),
        ensures
            plan_rel(
                make_plan::<R>(
                    old(self).env(root),
                    old(self).walk_state(old(inodes)),
                    kind@,
                    name@,
                    attach,
                ),
                old(self).walk_state(old(inodes)),
                cur,
                comp@,
                out,
                final(self).walk_state(final(inodes)),
            ),
            old(self).same_but_counter(final(self)),
            final(inodes).ref_cnts == old(inodes).ref_cnts,
            final(inodes).offsets == old(inodes).offsets,
    {
        let ghost st0 = self.walk_state(inodes);
        let ghost kv = kind@;
        let ghost nv = name@;
        match self.create_inode(inodes, root, kind, false, name) {
            Err(e) => StepOut::Fail(e),
            Ok(i) => {
                let ghost stat = stat_for_kind_spec::<R>(old(self).env(root), st0.nodes, kv).unwrap();
                if attach {
                    self.attach_entry(inodes, cur, slice_to_vec(comp), i);
                }
                proof {
                    let want = made(st0, i, kv, nv, stat, attach, cur, comp@);
                    assert(self.walk_state(inodes).used =~= want.used);
                    assert(self.walk_state(inodes) == want);
                    assert(make_ok(
                        st0,
                        i,
                        make_plan::<R>(old(self).env(root), st0, kv, nv, attach),
                        cur,
                        comp@,
                        StepOut::Next(i),
                        want,
                    ));
                }
                StepOut::Next(i)
            },
        }
    }

    /// Makes the inode of a special file, keeps it as an entry of `cur`,
    /// and goes on at it.
    fn make_device(
        &mut self,
        inodes: &mut WasiInodes,
        cur: Inode,
        comp: &[u8],
        file: Vec<u8>,
        ft: Filetype,
    ) -> (out: StepOut)
        ensures
            plan_rel(
                device_plan(file@, ft),
                old(self).walk_state(old(inodes)),
                cur,
                comp@,
                out,
                final(self).walk_state(final(inodes)),
            ),
            old(self).same_but_counter(final(self)),
            final(inodes).ref_cnts == old(inodes).ref_cnts,
            final(inodes).offsets == old(inodes).offsets,
    {
        let ghost st0 = self.walk_state(inodes);
        let ghost fv = file@;
        let kind = Kind::File { handle: None, path: slice_to_vec(file.as_slice()), fd: None };
        let ghost kv = kind@;
        let stat = Filestat {
            st_dev: 0,
            st_ino: 0,
            st_filetype: ft,
            st_nlink: 1,
            st_size: 0,
            st_atim: 0,
            st_mtim: 0,
            st_ctim: 0,
        };
        let i = self.create_inode_with_stat(inodes, kind, false, file, stat);
        self.attach_entry(inodes, cur, slice_to_vec(comp), i);
        proof {
            let want = made(st0, i, kv, fv, stat, true, cur, comp@);
            assert(self.walk_state(inodes).used =~= want.used);
            assert(self.walk_state(inodes) == want);
            assert(make_ok(st0, i, device_plan(fv, ft), cur, comp@, StepOut::Next(i), want));
        }
        StepOut::Next(i)
    }

    /// Asks the root filesystem for a name that is not among the entries
    /// of the directory `cur` yet, and makes the inode for what is there.
    fn materialize<R: FileSystem>(
        &mut self,
        inodes: &mut WasiInodes,
        root: &R,
        cur: Inode,
        comp: &[u8],
        file: Vec<u8>,
        Ghost(dir_path): Ghost<Seq<u8>>,
    ) -> (out: StepOut)
        requires
            root.inv(),
            file@ == push_component(dir_path, comp@),
        ensures
            plan_rel(
                miss_plan::<R>(
                    old(self).env(root),
                    old(self).walk_state(old(inodes)),
                    cur,
                    dir_path,
                    comp@,
                ),
                old(self).walk_state(old(inodes)),
                cur,
                comp@,
                out,
                final(self).walk_state(final(inodes)),
            ),
            old(self).same_but_counter(final(self)),
            final(inodes).ref_cnts == old(inodes).ref_cnts,
            final(inodes).offsets == old(inodes).offsets,
    {
        let md = match root.symlink_metadata(file.as_slice()) {
            Ok(md) => md,
            Err(_) => {
                return StepOut::Fail(Errno::Noent);
            },
        };
        match md.ft {
            FileType::Dir => {
                let kind = Kind::Dir {
                    parent: Some(cur),
                    path: slice_to_vec(file.as_slice()),
                    entries: DirEntries::new(),
                };
                self.make_node(inodes, root, cur, comp, kind, file, true)
            },
            FileType::File => {
                let kind = Kind::File {
                    handle: None,
                    path: slice_to_vec(file.as_slice()),
                    fd: None,
                };
                self.make_node(inodes, root, cur, comp, kind, file, true)
            },
            FileType::Symlink => {
                let target = match root.read_link(file.as_slice()) {
                    Ok(t) => t,
                    Err(e) => {
                        return StepOut::Fail(fs_error_into_wasi_err(e));
                    },
                };
                let m = match self.path_into_pre_open_and_relative_path(inodes, file.as_slice()) {
                    Ok(m) => m,
                    Err(e) => {
                        return StepOut::Fail(e);
                    },
                };
                let kind = Kind::Symlink {
                    base_po_dir: m.0,
                    path_to_symlink: m.1,
                    relative_path: target,
                };
                self.make_node(inodes, root, cur, comp, kind, file, false)
            },
            FileType::CharDevice => self.make_device(
                inodes,
                cur,
                comp,
                file,
                Filetype::CharacterDevice,
            ),
            FileType::BlockDevice => self.make_device(inodes, cur, comp, file, Filetype::BlockDevice),
            FileType::Fifo => self.make_device(inodes, cur, comp, file, Filetype::Unknown),
            FileType::Socket => self.make_device(inodes, cur, comp, file, Filetype::SocketStream),
            FileType::Unknown => StepOut::Fail(Errno::Inval),
        }
    }

    /// One step of a walk: from the inode `cur`, which is no link, over
    /// the component `comp`.
    pub fn walk_component<R: FileSystem>(
        &mut self,
        inodes: &mut WasiInodes,
        root: &R,
        cur: Inode,
        comp: &[u8],
    ) -> (out: StepOut)
        requires
            root.inv(),
        ensures
            step_rel::<R>(
                old(self).env(root),
                old(self).walk_state(old(inodes)),
                cur,
                comp@,
                out,
                final(self).walk_state(final(inodes)),
            ),
            old(self).same_but_counter(final(self)),
            final(inodes).ref_cnts == old(inodes).ref_cnts,
            final(inodes).offsets == old(inodes).offsets,
    {
        let iv = match inodes.get_inodeval(cur) {
            Ok(iv) => iv,
            Err(_) => {
                return StepOut::Fail(Errno::Badf);
            },
        };
        match &iv.kind {
            Kind::Dir { parent, path, entries } => {
                if is_parent(comp) {
                    return match parent {
                        Some(p) => StepOut::Next(*p),
                        None => StepOut::Fail(Errno::Access),
                    };
                }
                if is_cur(comp) {
                    return StepOut::Next(cur);
                }
                if is_root(comp) {
                    return StepOut::Fail(Errno::Notcapable);
                }
                if let Some(entry) = entries.get(comp) {
                    return StepOut::Next(entry);
                }
                let file = join(path.as_slice(), comp);
                let ghost dir_path = path@;
                self.materialize(inodes, root, cur, comp, file, Ghost(dir_path))
            },
            Kind::Root { entries } => {
                if is_parent(comp) || is_cur(comp) {
                    return StepOut::Next(cur);
                }
                match entries.get(comp) {
                    Some(entry) => StepOut::Next(entry),
                    None => StepOut::Fail(Errno::Notcapable),
                }
            },
            Kind::Symlink { base_po_dir, path_to_symlink, relative_path } => StepOut::Fail(
                Errno::Inval,
            ),
            _ => StepOut::Fail(Errno::Notdir),
        }
    }

    /// Resolves a path from an inode.
    ///
    /// The walk takes the components of the path one after the other: `..`
    /// leads to the directory above, `.` nowhere, any other name to the
    /// entry of that name. Entries that are not known yet are asked of the
    /// root filesystem and kept, links excepted. Where the walk stands on a
    /// link and has components left, or has reached the link itself and
    /// follows links, the link's target is resolved in its place. `Mlink`
    /// when `symlink_count` is over `MAX_SYMLINKS`, or when one more target
    /// would have to be put in place with `MAX_SYMLINKS` in place already.
    pub fn get_inode_at_path_inner<R: FileSystem>(
        &mut self,
        inodes: &mut WasiInodes,
        root: &R,
        base: Inode,
        path: &[u8],
        symlink_count: u32,
        follow_symlinks: bool,
    ) -> (r: Result<Inode, Errno>)
        requires
            root.inv(),
        ensures
            resolves::<R>(
                old(self).env(root),
                old(self).walk_state(old(inodes)),
                base,
                path@,
                symlink_count as int,
                follow_symlinks,
                r,
                final(self).walk_state(final(inodes)),
            ),
            old(self).same_but_counter(final(self)),
            final(inodes).ref_cnts == old(inodes).ref_cnts,
            final(inodes).offsets == old(inodes).offsets,
    {
        let found = self.resolve_counted(inodes, root, base, path, symlink_count, follow_symlinks);
        proof {
            assert(by_end(found.1 as int) && resolve_rel::<R>(
                old(self).env(root),
                old(self).walk_state(old(inodes)),
                base,
                path@,
                symlink_count as int,
                follow_symlinks,
                found.0,
                self.walk_state(inodes),
                found.1 as int,
            ));
        }
        found.0
    }

    /// Resolves a path from an inode, and counts the targets that are put
    /// in the place of links: returns where the path leads, and how many
    /// targets are in place at the end, those that were in place at the
    /// start included.
    pub fn resolve_counted<R: FileSystem>(
        &mut self,
        inodes: &mut WasiInodes,
        root: &R,
        base: Inode,
        path: &[u8],
        symlink_count: u32,
        follow_symlinks: bool,
    ) -> (r: (Result<Inode, Errno>, u32))
        requires
            root.inv(),
        ensures
            resolve_rel::<R>(
                old(self).env(root),
                old(self).walk_state(old(inodes)),
                base,
                path@,
                symlink_count as int,
                follow_symlinks,
                r.0,
                final(self).walk_state(final(inodes)),
                r.1 as int,
            ),
            symlink_count <= r.1,
            symlink_count <= MAX_SYMLINKS ==> r.1 <= MAX_SYMLINKS,
            old(self).same_but_counter(final(self)),
            final(inodes).ref_cnts == old(inodes).ref_cnts,
            final(inodes).offsets == old(inodes).offsets,
        decreases MAX_SYMLINKS - symlink_count,
    {
        if symlink_count > MAX_SYMLINKS {
            return (Err(Errno::Mlink), symlink_count);
        }
        let comps = components(path);
        let n = comps.len();
        let ghost env = self.env(root);
        let ghost st_init = self.walk_state(inodes);
        let ghost cv = components_of(path@);
        let ghost c0 = symlink_count as int;
        assert(names_of(comps@).len() == n);
        let mut cur = base;
        let mut i: usize = 0;
        let mut count: u32 = symlink_count;
        proof {
            lemma_simulates_start::<R>(env, st_init, base, cv, c0, follow_symlinks);
        }
        loop
            invariant
                root.inv(),
                0 <= i <= n,
                n == comps.len(),
                cv == names_of(comps@),
                cv == components_of(path@),
                cv.len() == n,
                c0 == symlink_count,
                symlink_count <= count <= MAX_SYMLINKS,
                env == self.env(root),
                env == old(self).env(root),
                st_init == old(self).walk_state(old(inodes)),
                old(self).same_but_counter(self),
                inodes.ref_cnts == old(inodes).ref_cnts,
                inodes.offsets == old(inodes).offsets,
                simulates::<R>(
                    env,
                    self.walk_state(inodes),
                    cur,
                    i as int,
                    count as int,
                    st_init,
                    base,
                    c0,
                    cv,
                    follow_symlinks,
                ),
            decreases MAX_SYMLINKS - count, n - i,
        {
            let ghost st_here = self.walk_state(inodes);
            let link = self.link_at(inodes, cur);
            let pending = match &link {
                Some(_) => i < n || (follow_symlinks && i > 0),
                None => false,
            };
            if pending {
                let l = link.unwrap();
                assert(pending_link(st_here, cur, n as int, i as int, follow_symlinks) == Some(
                    (l.0, l.1@, l.2@),
                ));
                if count >= MAX_SYMLINKS {
                    proof {
                        lemma_simulates_end::<R>(
                            env,
                            st_here,
                            cur,
                            i as int,
                            count as int,
                            st_init,
                            base,
                            c0,
                            cv,
                            follow_symlinks,
                            Err(Errno::Mlink),
                            st_here,
                            count as int,
                        );
                    }
                    return (Err(Errno::Mlink), count);
                }
                let start = match self.start_of_link(inodes, l.0, l.1.as_slice(), l.2.as_slice()) {
                    Ok(s) => s,
                    Err(e) => {
                        proof {
                            lemma_simulates_end::<R>(
                            env,
                            st_here,
                            cur,
                            i as int,
                            count as int,
                            st_init,
                            base,
                            c0,
                            cv,
                            follow_symlinks,
                                Err(e),
                                st_here,
                                count as int,
                            );
                        }
                        return (Err(e), count);
                    },
                };
                let ghost sv = (start.0, start.1@);
                let inner = self.resolve_counted(
                    inodes,
                    root,
                    start.0,
                    start.1.as_slice(),
                    count + 1,
                    follow_symlinks,
                );
                let ghost stm = self.walk_state(inodes);
                let ghost r = inner.0;
                let ghost mid = inner.1 as int;
                match inner.0 {
                    Err(e) => {
                        proof {
                            assert(by_link(r, stm, mid) && link_via::<R>(
                                env,
                                st_here,
                                sv,
                                cv,
                                i as int,
                                count as int,
                                follow_symlinks,
                                Err(e),
                                stm,
                                mid,
                                r,
                                stm,
                                mid,
                            ));
                            lemma_simulates_end::<R>(
                            env,
                            st_here,
                            cur,
                            i as int,
                            count as int,
                            st_init,
                            base,
                            c0,
                            cv,
                            follow_symlinks,
                                Err(e),
                                stm,
                                mid,
                            );
                        }
                        return (Err(e), inner.1);
                    },
                    Ok(t) => {
                        proof {
                            lemma_simulates_link::<R>(
                            env,
                            st_here,
                            cur,
                            i as int,
                            count as int,
                            st_init,
                            base,
                            c0,
                            cv,
                            follow_symlinks,
                                sv,
                                t,
                                stm,
                                mid,
                            );
                        }
                        cur = t;
                        count = inner.1;
                    },
                }
            } else {
                assert(pending_link(st_here, cur, n as int, i as int, follow_symlinks).is_none());
                if i >= n {
                    proof {
                        lemma_simulates_end::<R>(
                            env,
                            st_here,
                            cur,
                            i as int,
                            count as int,
                            st_init,
                            base,
                            c0,
                            cv,
                            follow_symlinks,
                            Ok(cur),
                            st_here,
                            count as int,
                        );
                    }
                    return (Ok(cur), count);
                }
                let out = self.walk_component(inodes, root, cur, comps[i].as_slice());
                let ghost stm = self.walk_state(inodes);
                assert(comps@[i as int]@ == cv[i as int]);
                match out {
                    StepOut::Fail(e) => {
                        proof {
                            assert(by_step(out, stm) && step_via::<R>(
                                env,
                                st_here,
                                cur,
                                cv,
                                i as int,
                                count as int,
                                follow_symlinks,
                                Err(e),
                                stm,
                                count as int,
                                out,
                                stm,
                            ));
                            lemma_simulates_end::<R>(
                            env,
                            st_here,
                            cur,
                            i as int,
                            count as int,
                            st_init,
                            base,
                            c0,
                            cv,
                            follow_symlinks,
                                Err(e),
                                stm,
                                count as int,
                            );
                        }
                        return (Err(e), count);
                    },
                    StepOut::Next(c) => {
                        proof {
                            lemma_simulates_step::<R>(
                            env,
                            st_here,
                            cur,
                            i as int,
                            count as int,
                            st_init,
                            base,
                            c0,
                            cv,
                            follow_symlinks,
                                c,
                                stm,
                            );
                        }
                        cur = c;
                        i = i + 1;
                    },
                }
            }
        }
    }
}

/// Whether every end of the walk from `cur` at component `i` is an end of
/// the walk from `base` at the first component.
#[verifier::opaque]
pub open spec fn simulates<R: FileSystem>(
    env: WalkEnv<R::V>,
    st: WalkState,
    cur: Inode,
    i: int,
    count: int,
    st_init: WalkState,
    base: Inode,
    c0: int,
    comps: Seq<Seq<u8>>,
    follow: bool,
) -> bool {
    forall|res: Result<Inode, Errno>, fin: WalkState, end: int| #[trigger]
        walk_rel::<R>(env, st, cur, comps, i, count, follow, res, fin, end) ==> walk_rel::<R>(
            env,
            st_init,
            base,
            comps,
            0,
            c0,
            follow,
            res,
            fin,
            end,
        )
}

proof fn lemma_simulates_start<R: FileSystem>(
    env: WalkEnv<R::V>,
    st: WalkState,
    base: Inode,
    comps: Seq<Seq<u8>>,
    c0: int,
    follow: bool,
)
    ensures
        simulates::<R>(env, st, base, 0, c0, st, base, c0, comps, follow),
{
    reveal(simulates);
}

proof fn lemma_simulates_end<R: FileSystem>(
    env: WalkEnv<R::V>,
    st: WalkState,
    cur: Inode,
    i: int,
    count: int,
    st_init: WalkState,
    base: Inode,
    c0: int,
    comps: Seq<Seq<u8>>,
    follow: bool,
    res: Result<Inode, Errno>,
    fin: WalkState,
    end: int,
)
    requires
        simulates::<R>(env, st, cur, i, count, st_init, base, c0, comps, follow),
        0 <= count <= MAX_SYMLINKS,
        0 <= i <= comps.len(),
        match pending_link(st, cur, comps.len() as int, i, follow) {
            Some(link) => if count >= MAX_SYMLINKS {
                res == Err::<Inode, Errno>(Errno::Mlink) && fin == st && end == count
            } else {
                match link_start(env.fds, env.preopens, st.nodes, link.0, link.1, link.2) {
                    Err(e) => res == Err::<Inode, Errno>(e) && fin == st && end == count,
                    Ok(start) => exists|r: Result<Inode, Errno>, stm: WalkState, mid: int| #[trigger]
                        by_link(r, stm, mid) && link_via::<R>(
                            env,
                            st,
                            start,
                            comps,
                            i,
                            count,
                            follow,
                            res,
                            fin,
                            end,
                            r,
                            stm,
                            mid,
                        ),
                }
            },
            None => if i >= comps.len() {
                res == Ok::<Inode, Errno>(cur) && fin == st && end == count
            } else {
                exists|out: StepOut, stm: WalkState| #[trigger]
                    by_step(out, stm) && step_via::<R>(
                        env,
                        st,
                        cur,
                        comps,
                        i,
                        count,
                        follow,
                        res,
                        fin,
                        end,
                        out,
                        stm,
                    )
            },
        },
    ensures
        walk_rel::<R>(env, st_init, base, comps, 0, c0, follow, res, fin, end),
{
    reveal(simulates);
    assert(walk_rel::<R>(env, st, cur, comps, i, count, follow, res, fin, end));
}

proof fn lemma_simulates_step<R: FileSystem>(
    env: WalkEnv<R::V>,
    st: WalkState,
    cur: Inode,
    i: int,
    count: int,
    st_init: WalkState,
    base: Inode,
    c0: int,
    comps: Seq<Seq<u8>>,
    follow: bool,
    c: Inode,
    stm: WalkState,
)
    requires
        simulates::<R>(env, st, cur, i, count, st_init, base, c0, comps, follow),
        0 <= count <= MAX_SYMLINKS,
        0 <= i < comps.len(),
        pending_link(st, cur, comps.len() as int, i, follow).is_none(),
        step_rel::<R>(env, st, cur, comps[i], StepOut::Next(c), stm),
    ensures
        simulates::<R>(env, stm, c, i + 1, count, st_init, base, c0, comps, follow),
{
    reveal(simulates);
    assert forall|res: Result<Inode, Errno>, fin: WalkState, end: int| #[trigger]
        walk_rel::<R>(env, stm, c, comps, i + 1, count, follow, res, fin, end) implies walk_rel::<R>(
        env,
        st_init,
        base,
        comps,
        0,
        c0,
        follow,
        res,
        fin,
        end,
    ) by {
        assert(by_step(StepOut::Next(c), stm) && step_via::<R>(
            env,
            st,
            cur,
            comps,
            i,
            count,
            follow,
            res,
            fin,
            end,
            StepOut::Next(c),
            stm,
        ));
        assert(walk_rel::<R>(env, st, cur, comps, i, count, follow, res, fin, end));
    }
}

proof fn lemma_simulates_link<R: FileSystem>(
    env: WalkEnv<R::V>,
    st: WalkState,
    cur: Inode,
    i: int,
    count: int,
    st_init: WalkState,
    base: Inode,
    c0: int,
    comps: Seq<Seq<u8>>,
    follow: bool,
    start: (Inode, Seq<u8>),
    t: Inode,
    stm: WalkState,
    mid: int,
)
    requires
        simulates::<R>(env, st, cur, i, count, st_init, base, c0, comps, follow),
        0 <= count < MAX_SYMLINKS,
        count < mid <= MAX_SYMLINKS,
        0 <= i <= comps.len(),
        pending_link(st, cur, comps.len() as int, i, follow).is_some(),
        link_start(
            env.fds,
            env.preopens,
            st.nodes,
            pending_link(st, cur, comps.len() as int, i, follow).unwrap().0,
            pending_link(st, cur, comps.len() as int, i, follow).unwrap().1,
            pending_link(st, cur, comps.len() as int, i, follow).unwrap().2,
        ) == Ok::<(Inode, Seq<u8>), Errno>(start),
        resolve_rel::<R>(env, st, start.0, start.1, count + 1, follow, Ok(t), stm, mid),
    ensures
        simulates::<R>(env, stm, t, i, mid, st_init, base, c0, comps, follow),
{
    reveal(simulates);
    assert forall|res: Result<Inode, Errno>, fin: WalkState, end: int| #[trigger]
        walk_rel::<R>(env, stm, t, comps, i, mid, follow, res, fin, end) implies walk_rel::<R>(
        env,
        st_init,
        base,
        comps,
        0,
        c0,
        follow,
        res,
        fin,
        end,
    ) by {
        assert(by_link(Ok(t), stm, mid) && link_via::<R>(
            env,
            st,
            start,
            comps,
            i,
            count,
            follow,
            res,
            fin,
            end,
            Ok(t),
            stm,
            mid,
        ));
        assert(walk_rel::<R>(env, st, cur, comps, i, count, follow, res, fin, end));
    }
}

/// The bound on links: a walk that stands on a link that it has to
/// replace, with `MAX_SYMLINKS` targets in place already, ends with
/// `Mlink` and changes nothing.
pub proof fn law_mlink_at_bound<R: FileSystem>(
    env: WalkEnv<R::V>,
    st0: WalkState,
    cur: Inode,
    comps: Seq<Seq<u8>>,
    i: int,
    follow: bool,
    res: Result<Inode, Errno>,
    st1: WalkState,
    end: int,
)
    requires
        pending_link(st0, cur, comps.len() as int, i, follow).is_some(),
        walk_rel::<R>(env, st0, cur, comps, i, MAX_SYMLINKS as int, follow, res, st1, end),
    ensures
        res == Err::<Inode, Errno>(Errno::Mlink),
        st1 == st0,
        end == MAX_SYMLINKS,
{
}

/// The bound on links: no walk has more than `MAX_SYMLINKS` targets in
/// place, and resolving with more than that ends with `Mlink`.
pub proof fn law_mlink_over_bound<R: FileSystem>(
    env: WalkEnv<R::V>,
    st0: WalkState,
    base: Inode,
    path: Seq<u8>,
    count: int,
    follow: bool,
    res: Result<Inode, Errno>,
    st1: WalkState,
    end: int,
)
    requires
        count > MAX_SYMLINKS,
    ensures
        resolve_rel::<R>(env, st0, base, path, count, follow, res, st1, end) <==> (res == Err::<
            Inode,
            Errno,
        >(Errno::Mlink) && st1 == st0 && end == count),
        forall|cur: Inode, comps: Seq<Seq<u8>>, i: int|
            !walk_rel::<R>(env, st0, cur, comps, i, count, follow, res, st1, end),
{
}

/// The bound on all links of a walk: the targets that a walk puts in the
/// place of links, one inside the other or one after the other, are
/// counted from `count` to `end`, and `end` is at most `MAX_SYMLINKS`. So
/// a walk that starts with none in place puts at most `MAX_SYMLINKS` in
/// place before it ends.
pub proof fn law_total_bound<R: FileSystem>(
    env: WalkEnv<R::V>,
    st0: WalkState,
    cur: Inode,
    comps: Seq<Seq<u8>>,
    i: int,
    count: int,
    follow: bool,
    res: Result<Inode, Errno>,
    st1: WalkState,
    end: int,
)
    requires
        walk_rel::<R>(env, st0, cur, comps, i, count, follow, res, st1, end),
    ensures
        0 <= count <= end <= MAX_SYMLINKS,
    decreases MAX_SYMLINKS - count, comps.len() - i,
{
    match pending_link(st0, cur, comps.len() as int, i, follow) {
        Some(link) => {
            if count < MAX_SYMLINKS {
                match link_start(env.fds, env.preopens, st0.nodes, link.0, link.1, link.2) {
                    Err(e) => {},
                    Ok(start) => {
                        let (r, stm, mid) = choose|r: Result<Inode, Errno>, stm: WalkState, mid: int| #[trigger]
                            by_link(r, stm, mid) && link_via::<R>(
                                env,
                                st0,
                                start,
                                comps,
                                i,
                                count,
                                follow,
                                res,
                                st1,
                                end,
                                r,
                                stm,
                                mid,
                            );
                        law_total_bound::<R>(
                            env,
                            st0,
                            start.0,
                            components_of(start.1),
                            0,
                            count + 1,
                            follow,
                            r,
                            stm,
                            mid,
                        );
                        match r {
                            Ok(t) => {
                                law_total_bound::<R>(env, stm, t, comps, i, mid, follow, res, st1, end);
                            },
                            Err(e) => {},
                        }
                    },
                }
            }
        },
        None => {
            if i < comps.len() {
                let (out, stm) = choose|out: StepOut, stm: WalkState| #[trigger]
                    by_step(out, stm) && step_via::<R>(
                        env,
                        st0,
                        cur,
                        comps,
                        i,
                        count,
                        follow,
                        res,
                        st1,
                        end,
                        out,
                        stm,
                    );
                match out {
                    StepOut::Next(c) => {
                        law_total_bound::<R>(env, stm, c, comps, i + 1, count, follow, res, st1, end);
                    },
                    StepOut::Fail(e) => {},
                }
            }
        },
    }
}

/// The bound on all links of a resolution: resolving a path with no
/// target in place puts at most `MAX_SYMLINKS` targets in the place of
/// links, however the links lie.
pub proof fn law_resolve_total_bound<R: FileSystem>(
    env: WalkEnv<R::V>,
    st0: WalkState,
    base: Inode,
    path: Seq<u8>,
    follow: bool,
    res: Result<Inode, Errno>,
    st1: WalkState,
    end: int,
)
    requires
        resolve_rel::<R>(env, st0, base, path, 0, follow, res, st1, end),
    ensures
        0 <= end <= MAX_SYMLINKS,
{
    law_total_bound::<R>(env, st0, base, components_of(path), 0, 0, follow, res, st1, end);
}

/// Names where the walk along a prefix ends, the state then, and the
/// number of targets in place then.
pub open spec fn by_prefix(c: Inode, stk: WalkState, e: int) -> bool {
    true
}

/// Prefixes resolve: where the walk along the components of a path, from
/// the component `i` on, ends at an inode, the walk along the first `k`
/// of the components ends at an inode too.
pub proof fn law_prefix_resolves<R: FileSystem>(
    env: WalkEnv<R::V>,
    st0: WalkState,
    cur: Inode,
    comps: Seq<Seq<u8>>,
    i: int,
    k: int,
    count: int,
    follow: bool,
    found: Inode,
    st1: WalkState,
    end: int,
)
    requires
        0 <= i <= k <= comps.len(),
        walk_rel::<R>(env, st0, cur, comps, i, count, follow, Ok(found), st1, end),
    ensures
        exists|c: Inode, stk: WalkState, e: int| #[trigger]
            by_prefix(c, stk, e) && walk_rel::<R>(
                env,
                st0,
                cur,
                comps.subrange(0, k),
                i,
                count,
                follow,
                Ok(c),
                stk,
                e,
            ),
    decreases MAX_SYMLINKS - count, comps.len() - i,
{
    let pre = comps.subrange(0, k);
    let res = Ok::<Inode, Errno>(found);
    let full_link = pending_link(st0, cur, comps.len() as int, i, follow);
    let pre_link = pending_link(st0, cur, k, i, follow);
    if pre_link.is_some() {
        assert(full_link == pre_link);
        let link = full_link.unwrap();
        let start = link_start(env.fds, env.preopens, st0.nodes, link.0, link.1, link.2).unwrap();
        let (r, stm, mid) = choose|r: Result<Inode, Errno>, stm: WalkState, mid: int| #[trigger]
            by_link(r, stm, mid) && link_via::<R>(
                env,
                st0,
                start,
                comps,
                i,
                count,
                follow,
                res,
                st1,
                end,
                r,
                stm,
                mid,
            );
        let t = r.unwrap();
        law_prefix_resolves::<R>(env, stm, t, comps, i, k, mid, follow, found, st1, end);
        let (c, stk, e) = choose|c: Inode, stk: WalkState, e: int| #[trigger]
            by_prefix(c, stk, e) && walk_rel::<R>(env, stm, t, pre, i, mid, follow, Ok(c), stk, e);
        assert(by_link(r, stm, mid) && link_via::<R>(
            env,
            st0,
            start,
            pre,
            i,
            count,
            follow,
            Ok(c),
            stk,
            e,
            r,
            stm,
            mid,
        ));
        assert(by_prefix(c, stk, e) && walk_rel::<R>(
            env,
            st0,
            cur,
            pre,
            i,
            count,
            follow,
            Ok(c),
            stk,
            e,
        ));
    } else if i == k {
        assert(by_prefix(cur, st0, count) && walk_rel::<R>(
            env,
            st0,
            cur,
            pre,
            i,
            count,
            follow,
            Ok(cur),
            st0,
            count,
        ));
    } else {
        assert(full_link.is_none());
        assert(pre[i] == comps[i]);
        let (out, stm) = choose|out: StepOut, stm: WalkState| #[trigger]
            by_step(out, stm) && step_via::<R>(
                env,
                st0,
                cur,
                comps,
                i,
                count,
                follow,
                res,
                st1,
                end,
                out,
                stm,
            );
        match out {
            StepOut::Next(n) => {
                law_prefix_resolves::<R>(env, stm, n, comps, i + 1, k, count, follow, found, st1, end);
                let (c, stk, e) = choose|c: Inode, stk: WalkState, e: int| #[trigger]
                    by_prefix(c, stk, e) && walk_rel::<R>(
                        env,
                        stm,
                        n,
                        pre,
                        i + 1,
                        count,
                        follow,
                        Ok(c),
                        stk,
                        e,
                    );
                assert(by_step(out, stm) && step_via::<R>(
                    env,
                    st0,
                    cur,
                    pre,
                    i,
                    count,
                    follow,
                    Ok(c),
                    stk,
                    e,
                    out,
                    stm,
                ));
                assert(by_prefix(c, stk, e) && walk_rel::<R>(
                    env,
                    st0,
                    cur,
                    pre,
                    i,
                    count,
                    follow,
                    Ok(c),
                    stk,
                    e,
                ));
            },
            StepOut::Fail(e) => {},
        }
    }
}

/// Steps follow the entries: after a step from a directory that is in use
/// over a name, the name is an entry of the directory and leads to where
/// the step went. Links are excepted, which are made anew each time and
/// not kept.
pub proof fn law_step_enters<R: FileSystem>(
    env: WalkEnv<R::V>,
    st0: WalkState,
    cur: Inode,
    comp: Seq<u8>,
    next: Inode,
    st1: WalkState,
)
    requires
        step_rel::<R>(env, st0, cur, comp, StepOut::Next(next), st1),
        st0.used.contains(cur),
        st0.nodes.contains_key(cur),
        st0.nodes[cur].kind is Dir || st0.nodes[cur].kind is Root,
        comp != parent_name(),
        comp != cur_name(),
        match step_plan::<R>(env, st0, cur, comp) {
            StepPlan::Make { kind, name, stat, attach } => attach,
            _ => true,
        },
    ensures
        st1.nodes.contains_key(cur),
        match st1.nodes[cur].kind {
            KindView::Dir { parent, path, entries } => entries.contains_key(comp) && entries[comp]
                == next,
            KindView::Root { entries } => entries.contains_key(comp) && entries[comp] == next,
            _ => false,
        },
{
    match step_plan::<R>(env, st0, cur, comp) {
        StepPlan::Make { kind, name, stat, attach } => {
            let plan = step_plan::<R>(env, st0, cur, comp);
            let i = choose|i: Inode| #[trigger] make_ok(st0, i, plan, cur, comp, StepOut::Next(next), st1);
            assert(i != cur);
            let mid = with_inode(st0, i, InodeValView { stat, is_preopened: false, name, kind });
            assert(mid.nodes[cur] == st0.nodes[cur]);
        },
        _ => {},
    }
}


/// Entries are names: a step that keeps what it made as an entry of a
/// directory keeps it under the component, and the component of a path is
/// a name without a separator.
pub proof fn law_entries_are_names<R: FileSystem>(
    env: WalkEnv<R::V>,
    st: WalkState,
    cur: Inode,
    path: Seq<u8>,
    i: int,
)
    requires
        0 <= i < components_of(path).len(),
        st.nodes.contains_key(cur),
        st.nodes[cur].kind is Dir,
        step_plan::<R>(env, st, cur, components_of(path)[i]) is Make,
    ensures
        components_of(path)[i] != root_name(),
        forall|k: int|
            0 <= k < components_of(path)[i].len() ==> #[trigger] components_of(path)[i][k] != SEP,
{
    crate::path::lemma_components_are_names(path);
}

} // verus!
