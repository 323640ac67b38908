//! Paths as the guest gives them: relative to a descriptor, or to the
//! working directory.
use crate::errors::Errno;
use crate::path::components;
use crate::path::components_of;
use crate::path::join_components;
use crate::path::join_range;
use crate::path::names_of;
use crate::path::DOT;
use crate::path::SEP;
use crate::state::fs::WalkEnv;
use crate::state::fs::WalkState;
use crate::state::fs::WasiFs;
use crate::state::inodes::Inode;
use crate::state::inodes::InodeValView;
use crate::state::inodes::Kind;
use crate::state::inodes::KindView;
use crate::state::inodes::WasiInodes;
use crate::state::resolve::resolves;
use crate::vfs::FileSystem;
use vstd::prelude::*;
use vstd::slice::slice_to_vec;

verus! {

/// Whether a path starts at the root.
pub open spec fn is_absolute(path: Seq<u8>) -> bool {
    path.len() > 0 && path[0] == SEP
}

/// Names a way that resolving can take by the working directory: what the
/// working directory resolved to, and the state then.
pub open spec fn by_current_dir(r1: Result<Inode, Errno>, stm: WalkState) -> bool {
    true
}

/// Whether resolving a path can end, by way of the working directory, with
/// `res` in `st1`, the working directory having resolved to `r1` in `stm`.
pub open spec fn via_current_dir<R: FileSystem>(
    env: WalkEnv<R::V>,
    st0: WalkState,
    start: Inode,
    current_dir: Seq<u8>,
    path: Seq<u8>,
    follow: bool,
    res: Result<Inode, Errno>,
    st1: WalkState,
    r1: Result<Inode, Errno>,
    stm: WalkState,
) -> bool {
    &&& resolves::<R>(env, st0, start, current_dir, 0, true, r1, stm)
    &&& match r1 {
        Err(e) => res == Err::<Inode, Errno>(e) && st1 == stm,
        Ok(c) => resolves::<R>(env, stm, c, path, 0, follow, res, st1),
    }
}

/// Whether resolving a path that the guest gave relative to a descriptor
/// can end with `res` in `st1`.
///
/// The walk starts at the inode of the descriptor; `Badf` when there is no
/// such descriptor. A relative path of a guest that has a working
/// directory starts where the working directory leads from there.
pub open spec fn at_path_rel<R: FileSystem>(
    env: WalkEnv<R::V>,
    st0: WalkState,
    base: u32,
    wasix: bool,
    current_dir: Seq<u8>,
    path: Seq<u8>,
    follow: bool,
    res: Result<Inode, Errno>,
    st1: WalkState,
) -> bool {
    if !env.fds.contains_key(base) {
        res == Err::<Inode, Errno>(Errno::Badf) && st1 == st0
    } else if wasix && !is_absolute(path) {
        exists|r1: Result<Inode, Errno>, stm: WalkState| #[trigger]
            by_current_dir(r1, stm) && via_current_dir::<R>(
                env,
                st0,
                env.fds[base].inode,
                current_dir,
                path,
                follow,
                res,
                st1,
                r1,
                stm,
            )
    } else {
        resolves::<R>(env, st0, env.fds[base].inode, path, 0, follow, res, st1)
    }
}

/// How many directories lie between an inode and the inode `base` above
/// it, looking at most `fuel` directories up. `Inval` when the way up ends
/// before `base` or leads through something that is no directory.
pub open spec fn depth_from(
    nodes: Map<Inode, InodeValView>,
    base: Inode,
    cur: Inode,
    fuel: nat,
) -> Result<nat, Errno>
    decreases fuel,
{
    if cur == base {
        Ok(0)
    } else if fuel == 0 {
        Err(Errno::Inval)
    } else if !nodes.contains_key(cur) {
        Err(Errno::Badf)
    } else {
        match nodes[cur].kind {
            KindView::Dir { parent, path, entries } => match parent {
                Some(p) => match depth_from(nodes, base, p, (fuel - 1) as nat) {
                    Ok(d) => Ok(d + 1),
                    Err(e) => Err(e),
                },
                None => Err(Errno::Inval),
            },
            _ => Err(Errno::Inval),
        }
    }
}

/// A depth with the steps that were taken before it.
pub open spec fn deeper(steps: nat, rest: Result<nat, Errno>) -> Result<nat, Errno> {
    match rest {
        Ok(d) => Ok(steps + d),
        Err(e) => Err(e),
    }
}

/// A path in which, from `i` on and from left to right, each pair of
/// separators has become one separator.
pub open spec fn squeezed(s: Seq<u8>, i: int) -> Seq<u8>
    decreases s.len() - i,
{
    if i < 0 || i >= s.len() {
        Seq::empty()
    } else if i + 1 < s.len() && s[i] == SEP && s[i + 1] == SEP {
        seq![SEP] + squeezed(s, i + 2)
    } else {
        seq![s[i]] + squeezed(s, i + 1)
    }
}

/// A path that starts with `./` made absolute: the working directory with
/// the path behind its dot, pairs of separators squeezed. Any other path
/// stays as it is.
pub open spec fn absolute_of(current_dir: Seq<u8>, path: Seq<u8>) -> Seq<u8> {
    if path.len() >= 2 && path[0] == DOT && path[1] == SEP {
        squeezed(current_dir + path.subrange(1, path.len() as int), 0)
    } else {
        path
    }
}

impl WasiFs {
    /// Makes a path that starts with `./` absolute.
    pub fn relative_path_to_absolute(&self, path: Vec<u8>) -> (r: Vec<u8>)
        ensures
            r@ == absolute_of(self.current_dir@, path@),
    {
        if !(path.len() >= 2 && path[0] == DOT && path[1] == SEP) {
            return path;
        }
        let mut joined = slice_to_vec(self.current_dir.as_slice());
        let mut k: usize = 1;
        while k < path.len()
            invariant
                1 <= k <= path.len(),
                joined@ == self.current_dir@ + path@.subrange(1, k as int),
            decreases path.len() - k,
        {
            joined.push(path[k]);
            assert(joined@ =~= self.current_dir@ + path@.subrange(1, k + 1));
            k += 1;
        }
        let mut out: Vec<u8> = Vec::new();
        let mut i: usize = 0;
        let n = joined.len();
        while i < n
            invariant
                0 <= i <= n,
                n == joined@.len(),
                squeezed(joined@, 0) == out@ + squeezed(joined@, i as int),
            decreases n - i,
        {
            let ghost before = out@;
            if i + 1 < n && joined[i] == SEP && joined[i + 1] == SEP {
                out.push(SEP);
                assert(before + (seq![SEP] + squeezed(joined@, i + 2)) =~= out@ + squeezed(
                    joined@,
                    i + 2,
                ));
                i += 2;
            } else {
                out.push(joined[i]);
                assert(before + (seq![joined@[i as int]] + squeezed(joined@, i + 1)) =~= out@
                    + squeezed(joined@, i + 1));
                i += 1;
            }
        }
        assert(out@ + squeezed(joined@, n as int) =~= out@);
        out
    }

    /// The inode that the working directory leads to from a descriptor,
    /// with the working directory.
    pub fn get_current_dir_inner<R: FileSystem>(
        &mut self,
        inodes: &mut WasiInodes,
        root: &R,
        base: u32,
        symlink_count: u32,
    ) -> (r: Result<(Inode, Vec<u8>), Errno>)
        requires
            root.inv(),
        ensures
            !old(self).fd_map@.contains_key(base) ==> r.is_err() && r.unwrap_err() == Errno::Badf
                && final(self).walk_state(final(inodes)) == old(self).walk_state(old(inodes)),
            old(self).fd_map@.contains_key(base) ==> resolves::<R>(
                old(self).env(root),
                old(self).walk_state(old(inodes)),
                old(self).fd_map@[base].inode,
                old(self).current_dir@,
                symlink_count as int,
                true,
                match r {
                    Ok(found) => Ok(found.0),
                    Err(e) => Err(e),
                },
                final(self).walk_state(final(inodes)),
            ),
            r.is_ok() ==> r.unwrap().1@ == old(self).current_dir@,
            old(self).same_but_counter(final(self)),
            final(inodes).ref_cnts == old(inodes).ref_cnts,
            final(inodes).offsets == old(inodes).offsets,
    {
        let current_dir = slice_to_vec(self.current_dir.as_slice());
        let cur_inode = match self.get_fd_inode(base) {
            Ok(i) => i,
            Err(e) => {
                return Err(e);
            },
        };
        match self.get_inode_at_path_inner(
            inodes,
            root,
            cur_inode,
            current_dir.as_slice(),
            symlink_count,
            true,
        ) {
            Ok(inode) => Ok((inode, current_dir)),
            Err(e) => Err(e),
        }
    }

    /// The inode that the working directory leads to from a descriptor,
    /// with the working directory.
    pub fn get_current_dir<R: FileSystem>(
        &mut self,
        inodes: &mut WasiInodes,
        root: &R,
        base: u32,
    ) -> (r: Result<(Inode, Vec<u8>), Errno>)
        requires
            root.inv(),
        ensures
            !old(self).fd_map@.contains_key(base) ==> r.is_err() && r.unwrap_err() == Errno::Badf
                && final(self).walk_state(final(inodes)) == old(self).walk_state(old(inodes)),
            old(self).fd_map@.contains_key(base) ==> resolves::<R>(
                old(self).env(root),
                old(self).walk_state(old(inodes)),
                old(self).fd_map@[base].inode,
                old(self).current_dir@,
                0,
                true,
                match r {
                    Ok(found) => Ok(found.0),
                    Err(e) => Err(e),
                },
                final(self).walk_state(final(inodes)),
            ),
            r.is_ok() ==> r.unwrap().1@ == old(self).current_dir@,
            old(self).same_but_counter(final(self)),
            final(inodes).ref_cnts == old(inodes).ref_cnts,
            final(inodes).offsets == old(inodes).offsets,
    {
        self.get_current_dir_inner(inodes, root, base, 0)
    }

    /// Resolves a path that the guest gave relative to a descriptor.
    pub fn get_inode_at_path<R: FileSystem>(
        &mut self,
        inodes: &mut WasiInodes,
        root: &R,
        base: u32,
        path: &[u8],
        follow_symlinks: bool,
    ) -> (r: Result<Inode, Errno>)
        requires
            root.inv(),
        ensures
            at_path_rel::<R>(
                old(self).env(root),
                old(self).walk_state(old(inodes)),
                base,
                old(self).is_wasix,
                old(self).current_dir@,
                path@,
                follow_symlinks,
                r,
                final(self).walk_state(final(inodes)),
            ),
            old(self).same_but_counter(final(self)),
            final(inodes).ref_cnts == old(inodes).ref_cnts,
            final(inodes).offsets == old(inodes).offsets,
    {
        let ghost env = self.env(root);
        let ghost st0 = self.walk_state(inodes);
        let relative = !(path.len() > 0 && path[0] == SEP);
        let start_inode = if relative && self.is_wasix {
            let found = self.get_current_dir(inodes, root, base);
            let ghost stm = self.walk_state(inodes);
            match found {
                Ok(f) => {
                    let r = self.get_inode_at_path_inner(
                        inodes,
                        root,
                        f.0,
                        path,
                        0,
                        follow_symlinks,
                    );
                    proof {
                        let r1 = Ok::<Inode, Errno>(f.0);
                        assert(by_current_dir(r1, stm) && via_current_dir::<R>(
                            env,
                            st0,
                            env.fds[base].inode,
                            old(self).current_dir@,
                            path@,
                            follow_symlinks,
                            r,
                            self.walk_state(inodes),
                            r1,
                            stm,
                        ));
                    }
                    return r;
                },
                Err(e) => {
                    proof {
                        if env.fds.contains_key(base) {
                            let r1 = Err::<Inode, Errno>(e);
                            assert(by_current_dir(r1, stm) && via_current_dir::<R>(
                                env,
                                st0,
                                env.fds[base].inode,
                                old(self).current_dir@,
                                path@,
                                follow_symlinks,
                                Err(e),
                                stm,
                                r1,
                                stm,
                            ));
                        }
                    }
                    return Err(e);
                },
            }
        } else {
            match self.get_fd_inode(base) {
                Ok(i) => i,
                Err(e) => {
                    return Err(e);
                },
            }
        };
        self.get_inode_at_path_inner(inodes, root, start_inode, path, 0, follow_symlinks)
    }

    /// The directory in which the last component of a path lies, and that
    /// component. `Inval` for a path without components.
    pub fn get_parent_inode_at_path<R: FileSystem>(
        &mut self,
        inodes: &mut WasiInodes,
        root: &R,
        base: u32,
        path: &[u8],
        follow_symlinks: bool,
    ) -> (r: Result<(Inode, Vec<u8>), Errno>)
        requires
            root.inv(),
        ensures
            components_of(path@).len() == 0 ==> r.is_err() && r.unwrap_err() == Errno::Inval
                && final(self).walk_state(final(inodes)) == old(self).walk_state(old(inodes)),
            components_of(path@).len() > 0 ==> at_path_rel::<R>(
                old(self).env(root),
                old(self).walk_state(old(inodes)),
                base,
                old(self).is_wasix,
                old(self).current_dir@,
                join_components(components_of(path@).drop_last()),
                follow_symlinks,
                match r {
                    Ok(found) => Ok(found.0),
                    Err(e) => Err(e),
                },
                final(self).walk_state(final(inodes)),
            ),
            r.is_ok() ==> components_of(path@).len() > 0 && r.unwrap().1@ == components_of(
                path@,
            ).last(),
            old(self).same_but_counter(final(self)),
            final(inodes).ref_cnts == old(inodes).ref_cnts,
            final(inodes).offsets == old(inodes).offsets,
    {
        let comps = components(path);
        let n = comps.len();
        assert(names_of(comps@).len() == n);
        if n == 0 {
            return Err(Errno::Inval);
        }
        let new_entity_name = slice_to_vec(comps[n - 1].as_slice());
        let parent_dir = join_range(&comps, 0, n - 1);
        assert(names_of(comps@).subrange(0, n - 1) =~= components_of(path@).drop_last());
        match self.get_inode_at_path(inodes, root, base, parent_dir.as_slice(), follow_symlinks) {
            Ok(v) => Ok((v, new_entity_name)),
            Err(e) => Err(e),
        }
    }

    /// How many directories lie between an inode and the inode of a
    /// descriptor above it.
    #[verifier::loop_isolation(false)]
    pub fn path_depth_from_fd(&self, inodes: &WasiInodes, fd: u32, inode: Inode) -> (r: Result<
        usize,
        Errno,
    >)
        ensures
            !self.fd_map@.contains_key(fd) ==> r == Err::<usize, Errno>(Errno::Badf),
            self.fd_map@.contains_key(fd) ==> match depth_from(
                inodes@,
                self.fd_map@[fd].inode,
                inode,
                usize::MAX as nat,
            ) {
                Ok(d) => r == Ok::<usize, Errno>(d as usize),
                Err(e) => r == Err::<usize, Errno>(e),
            },
    {
        let base_inode = self.get_fd_inode(fd)?;
        let mut counter: usize = 0;
        let mut cur_inode = inode;
        let ghost whole = depth_from(inodes@, base_inode, inode, usize::MAX as nat);
        loop
            invariant
                0 <= counter <= usize::MAX,
                whole == deeper(
                    counter as nat,
                    depth_from(inodes@, base_inode, cur_inode, (usize::MAX - counter) as nat),
                ),
            decreases usize::MAX - counter,
        {
            if cur_inode.index == base_inode.index && cur_inode.generation == base_inode.generation {
                return Ok(counter);
            }
            if counter == usize::MAX {
                return Err(Errno::Inval);
            }
            let iv = match inodes.get_inodeval(cur_inode) {
                Ok(iv) => iv,
                Err(e) => {
                    return Err(e);
                },
            };
            match &iv.kind {
                Kind::Dir { parent, path, entries } => match parent {
                    Some(p) => {
                        cur_inode = *p;
                    },
                    None => {
                        return Err(Errno::Inval);
                    },
                },
                _ => {
                    return Err(Errno::Inval);
                },
            }
            counter += 1;
        }
    }
}

} // verus!
