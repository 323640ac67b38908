//! Closing descriptors, and carrying them over a fork.
use crate::errors::Errno;
use crate::path::file_name;
use crate::pipe::PipeView;
use crate::state::fd::Fd;
use crate::state::fs::bumped_upto;
use crate::state::fs::close_all_upto;
use crate::state::fs::close_last;
use crate::state::fs::close_spec;
use crate::state::fs::count_down;
use crate::state::fs::count_up;
use crate::state::fs::index_of;
use crate::state::fs::without_first;
use crate::state::fs::FdState;
use crate::state::fs::WasiFs;
use crate::state::inodes::Inode;
use crate::state::inodes::InodeSocket;
use crate::state::inodes::InodeSocketKind;
use crate::state::inodes::InodeValView;
use crate::state::inodes::Kind;
use crate::state::inodes::KindView;
use crate::state::inodes::WasiInodes;
use vstd::prelude::*;
use vstd::slice::slice_to_vec;

verus! {

/// What is to be done with the inode of a descriptor that was the last.
enum LastClose {
    DropHandle,
    CloseSocket,
    ClosePipe,
    LeaveParent(Option<Inode>, Option<Vec<u8>>),
    Nothing,
    Fail(Errno),
}

impl WasiFs {
    /// Takes the first occurrence of a descriptor out of the preopened
    /// ones.
    fn forget_preopen(&mut self, fd: u32)
        ensures
            final(self).preopen_fds@ == without_first(old(self).preopen_fds@, fd),
            final(self).fd_map == old(self).fd_map,
            old(self).same_but_fds(final(self)),
    {
        let mut i: usize = 0;
        while i < self.preopen_fds.len()
            invariant
                0 <= i <= self.preopen_fds.len(),
                *self == *old(self),
                index_of(self.preopen_fds@, fd, 0) == index_of(self.preopen_fds@, fd, i as int),
            decreases self.preopen_fds.len() - i,
        {
            if self.preopen_fds[i] == fd {
                self.preopen_fds.remove(i);
                return ;
            }
            i += 1;
        }
    }

    /// Changes the inode of a descriptor that was the last: a file loses
    /// its handle, a socket is closed, a pipe is cut off.
    fn release(&self, inodes: &mut WasiInodes, inode: Inode)
        requires
            old(inodes)@.contains_key(inode),
            old(inodes)@[inode].kind is File || old(inodes)@[inode].kind is Socket || old(
                inodes,
            )@[inode].kind is Pipe,
        ensures
            final(inodes).ref_cnts == old(inodes).ref_cnts,
            final(inodes).offsets == old(inodes).offsets,
            forall|j: Inode| #[trigger] final(inodes).in_use(j) == old(inodes).in_use(j),
            final(inodes)@ == old(inodes)@.insert(
                inode,
                InodeValView {
                    kind: match old(inodes)@[inode].kind {
                        KindView::File { handle, path, fd } => KindView::File {
                            handle: None,
                            path,
                            fd,
                        },
                        KindView::Socket { socket } => KindView::Socket {
                            socket: InodeSocket { kind: InodeSocketKind::Closed },
                        },
                        KindView::Pipe { pipe } => KindView::Pipe {
                            pipe: PipeView { buffer: Seq::empty(), closed: true, ..pipe },
                        },
                        other => other,
                    },
                    ..old(inodes)@[inode]
                },
            ),
    {
        let ghost before = *inodes;
        match inodes.get_inodeval_mut(inode) {
            Err(_) => {},
            Ok(iv) => {
                match &mut iv.kind {
                    Kind::File { handle, path, fd } => {
                        *handle = None;
                    },
                    Kind::Socket { socket } => {
                        *socket = InodeSocket { kind: InodeSocketKind::Closed };
                    },
                    Kind::Pipe { pipe } => {
                        pipe.close();
                    },
                    _ => {},
                }
                proof {
                    before.lemma_replaced(inodes, inode, *iv);
                }
            },
        }
    }

    /// Takes a name out of the entries of a directory.
    fn leave(&self, inodes: &mut WasiInodes, dir: Inode, key: &[u8])
        requires
            old(inodes)@.contains_key(dir),
            old(inodes)@[dir].kind is Dir || old(inodes)@[dir].kind is Root,
        ensures
            final(inodes).ref_cnts == old(inodes).ref_cnts,
            final(inodes).offsets == old(inodes).offsets,
            forall|j: Inode| #[trigger] final(inodes).in_use(j) == old(inodes).in_use(j),
            final(inodes)@ == old(inodes)@.insert(
                dir,
                InodeValView {
                    kind: match old(inodes)@[dir].kind {
                        KindView::Dir { parent, path, entries } => KindView::Dir {
                            parent,
                            path,
                            entries: entries.remove(key@),
                        },
                        KindView::Root { entries } => KindView::Root { entries: entries.remove(key@) },
                        other => other,
                    },
                    ..old(inodes)@[dir]
                },
            ),
    {
        let ghost before = *inodes;
        match inodes.get_inodeval_mut(dir) {
            Err(_) => {},
            Ok(iv) => {
                match &mut iv.kind {
                    Kind::Dir { parent, path, entries } => {
                        entries.remove(key);
                    },
                    Kind::Root { entries } => {
                        entries.remove(key);
                    },
                    _ => {},
                }
                proof {
                    before.lemma_replaced(inodes, dir, *iv);
                }
            },
        }
    }

    /// Whether an inode is a directory or the root.
    fn holds_entries(&self, inodes: &WasiInodes, inode: Inode) -> (r: Option<bool>)
        ensures
            r.is_some() == inodes@.contains_key(inode),
            r.is_some() ==> r.unwrap() == (inodes@[inode].kind is Dir || inodes@[inode].kind is Root),
    {
        match inodes.get_inodeval(inode) {
            Err(_) => None,
            Ok(iv) => match &iv.kind {
                Kind::Dir { parent, path, entries } => Some(true),
                Kind::Root { entries } => Some(true),
                _ => Some(false),
            },
        }
    }

    /// Closes a descriptor.
    ///
    /// The count that the descriptor shares goes down by one. If it was
    /// over 1, the descriptor leaves the table and nothing else happens.
    /// Else the inode is acted upon: a file loses its handle, a socket is
    /// closed, a pipe is cut off; the descriptor of a directory leaves the
    /// table, the directory's name leaves the entries of its parent, and
    /// the descriptor leaves the preopened ones. The root is never closed
    /// (`Access`), nor are links and buffers (`Inval`).
    pub fn close_fd_ext(&mut self, inodes: &mut WasiInodes, fd: u32) -> (r: Result<(), Errno>)
        ensures
            r == close_spec(old(self).fd_state(old(inodes)), fd).0,
            final(self).fd_state(final(inodes)) == close_spec(old(self).fd_state(old(inodes)), fd).1,
            old(self).same_but_fds(final(self)),
            final(inodes).offsets == old(inodes).offsets,
            forall|j: Inode| #[trigger] final(inodes).in_use(j) == old(inodes).in_use(j),
            old(self).fd_map.wf() ==> final(self).fd_map.wf(),
    {
        let ghost s = self.fd_state(inodes);
        let pfd = match self.fd_map.get(fd) {
            Some(f) => f,
            None => {
                return Err(Errno::Badf);
            },
        };
        if pfd.ref_cnt >= inodes.ref_cnts.len() {
            return Err(Errno::Badf);
        }
        let before = inodes.ref_cnts[pfd.ref_cnt];
        inodes.ref_cnts.set(pfd.ref_cnt, before.wrapping_sub(1));
        let ghost s1 = FdState {
            ref_cnts: s.ref_cnts.update(pfd.ref_cnt as int, count_down(before)),
            ..s
        };
        assert(self.fd_state(inodes).nodes =~= s1.nodes);
        assert(self.fd_state(inodes) == s1);
        if before > 1 {
            self.fd_map.remove(fd);
            return Ok(());
        }
        let inode = pfd.inode;
        let plan = match inodes.get_inodeval(inode) {
            Err(e) => LastClose::Fail(e),
            Ok(iv) => match &iv.kind {
                Kind::File { handle, path, fd } => LastClose::DropHandle,
                Kind::Socket { socket } => LastClose::CloseSocket,
                Kind::Pipe { pipe } => LastClose::ClosePipe,
                Kind::Dir { parent, path, entries } => LastClose::LeaveParent(
                    *parent,
                    file_name(path.as_slice()),
                ),
                Kind::EventNotifications { counter, is_semaphore, immediate } => LastClose::Nothing,
                Kind::Root { entries } => LastClose::Fail(Errno::Access),
                Kind::Symlink { base_po_dir, path_to_symlink, relative_path } => LastClose::Fail(
                    Errno::Inval,
                ),
                Kind::Buffer { buffer } => LastClose::Fail(Errno::Inval),
            },
        };
        match plan {
            LastClose::Fail(e) => Err(e),
            LastClose::Nothing => Ok(()),
            LastClose::DropHandle => {
                self.release(inodes, inode);
                assert(self.fd_state(inodes) == close_last(s1, fd, inode).1);
                Ok(())
            },
            LastClose::CloseSocket => {
                self.release(inodes, inode);
                assert(self.fd_state(inodes) == close_last(s1, fd, inode).1);
                Ok(())
            },
            LastClose::ClosePipe => {
                self.release(inodes, inode);
                assert(self.fd_state(inodes) == close_last(s1, fd, inode).1);
                Ok(())
            },
            LastClose::LeaveParent(parent, key) => {
                let key = match key {
                    Some(k) => k,
                    None => {
                        return Err(Errno::Inval);
                    },
                };
                let p = match parent {
                    Some(p) => p,
                    None => {
                        return Err(Errno::Inval);
                    },
                };
                match self.holds_entries(inodes, p) {
                    None => Err(Errno::Badf),
                    Some(false) => Err(Errno::Inval),
                    Some(true) => {
                        self.fd_map.remove(fd);
                        self.leave(inodes, p, key.as_slice());
                        self.forget_preopen(fd);
                        proof {
                            let want = close_last(s1, fd, inode).1;
                            assert(self.fd_state(inodes).nodes =~= want.nodes);
                            assert(self.fd_state(inodes) == want);
                        }
                        Ok(())
                    },
                }
            },
        }
    }

    /// Closes a descriptor.
    pub fn close_fd(&mut self, inodes: &mut WasiInodes, fd: u32) -> (r: Result<(), Errno>)
        ensures
            r == close_spec(old(self).fd_state(old(inodes)), fd).0,
            final(self).fd_state(final(inodes)) == close_spec(old(self).fd_state(old(inodes)), fd).1,
            old(self).same_but_fds(final(self)),
            final(inodes).offsets == old(inodes).offsets,
            old(self).fd_map.wf() ==> final(self).fd_map.wf(),
    {
        self.close_fd_ext(inodes, fd)
    }

    /// Closes every descriptor that is in the table, in the order of the
    /// table, whatever each close answers.
    pub fn close_all(&mut self, inodes: &mut WasiInodes)
        ensures
            final(self).fd_state(final(inodes)) == close_all_upto(
                old(self).fd_state(old(inodes)),
                old(self).fd_map.order(),
                old(self).fd_map.order().len() as int,
            ),
            old(self).same_but_fds(final(self)),
            final(inodes).offsets == old(inodes).offsets,
            old(self).fd_map.wf() ==> final(self).fd_map.wf(),
    {
        let fds = self.fd_map.keys();
        let mut k: usize = 0;
        while k < fds.len()
            invariant
                0 <= k <= fds.len(),
                fds@ == old(self).fd_map.order(),
                self.fd_state(inodes) == close_all_upto(
                    old(self).fd_state(old(inodes)),
                    fds@,
                    k as int,
                ),
                old(self).same_but_fds(self),
                inodes.offsets == old(inodes).offsets,
                old(self).fd_map.wf() ==> self.fd_map.wf(),
            decreases fds.len() - k,
        {
            let _ = self.close_fd_ext(inodes, fds[k]);
            k += 1;
        }
    }

    /// The state of a guest that is forked from this one.
    ///
    /// The child has the parent's descriptors under the parent's numbers:
    /// each shares its count and its offset with the parent's, and each
    /// puts one on its count. The child starts with the parent's counters
    /// and working directory, and with no package united.
    pub fn fork(&self, inodes: &mut WasiInodes) -> (child: WasiFs)
        ensures
            child.fd_map@ == self.fd_map@,
            child.fd_map.order() == self.fd_map.order(),
            forall|fd: u32| #[trigger]
                self.fd_map@.contains_key(fd) ==> child.fd_map@.contains_key(fd)
                    && child.fd_map@[fd].ref_cnt == self.fd_map@[fd].ref_cnt && child.fd_map@[fd].offset
                    == self.fd_map@[fd].offset,
            child.preopen_fds@ == self.preopen_fds@,
            child.name_map@ == self.name_map@,
            child.next_fd == self.next_fd,
            child.inode_counter == self.inode_counter,
            child.current_dir@ == self.current_dir@,
            child.is_wasix == self.is_wasix,
            child.has_unioned@.len() == 0,
            final(inodes).ref_cnts@ == bumped_upto(
                old(inodes).ref_cnts@,
                self.fd_map@,
                self.fd_map.order(),
                self.fd_map.order().len() as int,
            ),
            final(inodes).offsets == old(inodes).offsets,
            final(inodes).arena == old(inodes).arena,
            final(inodes).orphan_fds == old(inodes).orphan_fds,
            final(inodes).ref_cnts@.len() == old(inodes).ref_cnts@.len(),
            self.fd_map.wf() ==> child.fd_map.wf(),
            self.fd_map.wf() ==> forall|k: u32|
                self.fd_map@.contains_key(k) && #[trigger] shares_with_none(self.fd_map@, k)
                    && self.fd_map@[k].ref_cnt < old(inodes).ref_cnts@.len() ==> counted_up(
                    old(inodes).ref_cnts@,
                    final(inodes).ref_cnts@,
                    self.fd_map@[k].ref_cnt as int,
                ),
    {
        let fd_map = self.fd_map.duplicate();
        let fds = fd_map.keys();
        let mut k: usize = 0;
        while k < fds.len()
            invariant
                0 <= k <= fds.len(),
                fds@ == self.fd_map.order(),
                fd_map@ == self.fd_map@,
                inodes.ref_cnts@ == bumped_upto(
                    old(inodes).ref_cnts@,
                    self.fd_map@,
                    fds@,
                    k as int,
                ),
                inodes.offsets == old(inodes).offsets,
                inodes.arena == old(inodes).arena,
                inodes.orphan_fds == old(inodes).orphan_fds,
            decreases fds.len() - k,
        {
            if let Some(f) = fd_map.get(fds[k]) {
                if f.ref_cnt < inodes.ref_cnts.len() {
                    let before = inodes.ref_cnts[f.ref_cnt];
                    inodes.ref_cnts.set(f.ref_cnt, before.wrapping_add(1));
                }
            }
            k += 1;
        }
        proof {
            let cnts = old(inodes).ref_cnts@;
            if self.fd_map.wf() {
                self.fd_map.lemma_order();
                assert forall|k: u32|
                    self.fd_map@.contains_key(k) && #[trigger] shares_with_none(self.fd_map@, k)
                        && self.fd_map@[k].ref_cnt < cnts.len() implies counted_up(
                    cnts,
                    inodes.ref_cnts@,
                    self.fd_map@[k].ref_cnt as int,
                ) by {
                    lemma_bumped_alone(cnts, self.fd_map@, fds@, k, fds@.len() as int);
                    assert(fds@.subrange(0, fds@.len() as int) =~= fds@);
                }
            }
            lemma_bumped_len(cnts, self.fd_map@, fds@, fds@.len() as int);
        }
        WasiFs {
            preopen_fds: slice_to_vec(self.preopen_fds.as_slice()),
            name_map: self.name_map.duplicate(),
            fd_map,
            next_fd: self.next_fd,
            inode_counter: self.inode_counter,
            current_dir: slice_to_vec(self.current_dir.as_slice()),
            is_wasix: self.is_wasix,
            has_unioned: Vec::new(),
        }
    }
}


/// A close that finds a count over 1 takes the descriptor out of the
/// table and one off the count, and leaves every inode as it is.
pub proof fn law_close_shared(s: FdState, fd: u32)
    requires
        s.fds.contains_key(fd),
        s.fds[fd].ref_cnt < s.ref_cnts.len(),
        s.ref_cnts[s.fds[fd].ref_cnt as int] > 1,
    ensures
        close_spec(s, fd).0.is_ok(),
        close_spec(s, fd).1.nodes == s.nodes,
        close_spec(s, fd).1.preopens == s.preopens,
        close_spec(s, fd).1.fds == s.fds.remove(fd),
        close_spec(s, fd).1.ref_cnts == s.ref_cnts.update(
            s.fds[fd].ref_cnt as int,
            (s.ref_cnts[s.fds[fd].ref_cnt as int] - 1) as u32,
        ),
{
}

/// A close that finds a count of 1 is the one that acts upon the inode.
pub proof fn law_close_last(s: FdState, fd: u32)
    requires
        s.fds.contains_key(fd),
        s.fds[fd].ref_cnt < s.ref_cnts.len(),
        s.ref_cnts[s.fds[fd].ref_cnt as int] == 1,
    ensures
        close_spec(s, fd) == close_last(
            FdState { ref_cnts: s.ref_cnts.update(s.fds[fd].ref_cnt as int, 0u32), ..s },
            fd,
            s.fds[fd].inode,
        ),
{
}

/// As many closes as the count says are needed before the inode is acted
/// upon: of descriptors that share a count, closing fewer than the count
/// leaves every inode as it is and takes one off the count for each.
pub proof fn law_close_needs_all(s: FdState, keys: Seq<u32>, cell: int, k: int)
    requires
        0 <= k <= keys.len(),
        keys.no_duplicates(),
        0 <= cell < s.ref_cnts.len(),
        forall|i: int|
            0 <= i < keys.len() ==> s.fds.contains_key(#[trigger] keys[i]) && s.fds[keys[i]].ref_cnt
                == cell,
        s.ref_cnts[cell] > k,
    ensures
        close_all_upto(s, keys, k).nodes == s.nodes,
        close_all_upto(s, keys, k).ref_cnts == s.ref_cnts.update(cell, (s.ref_cnts[cell] - k) as u32),
        forall|i: int|
            k <= i < keys.len() ==> close_all_upto(s, keys, k).fds.contains_key(#[trigger] keys[i])
                && close_all_upto(s, keys, k).fds[keys[i]] == s.fds[keys[i]],
        forall|i: int| 0 <= i < k ==> !close_all_upto(s, keys, k).fds.contains_key(#[trigger] keys[i]),
    decreases k,
{
    if k == 0 {
        assert(s.ref_cnts.update(cell, s.ref_cnts[cell]) =~= s.ref_cnts);
    } else {
        law_close_needs_all(s, keys, cell, k - 1);
        let before = close_all_upto(s, keys, k - 1);
        let fd = keys[k - 1];
        assert(before.fds.contains_key(fd));
        law_close_shared(before, fd);
        let after = close_spec(before, fd).1;
        assert(after.ref_cnts =~= s.ref_cnts.update(cell, (s.ref_cnts[cell] - k) as u32));
        assert forall|i: int| k <= i < keys.len() implies after.fds.contains_key(#[trigger] keys[i])
            && after.fds[keys[i]] == s.fds[keys[i]] by {
            assert(keys[i] != keys[k - 1]);
        }
        assert forall|i: int| 0 <= i < k implies !after.fds.contains_key(#[trigger] keys[i]) by {
            if i < k - 1 {
                assert(!before.fds.contains_key(keys[i]));
            }
        }
    }
}


/// How many of the first `k` descriptors of a table, in its order, share
/// the count in a cell.
pub open spec fn sharers(fds: Map<u32, Fd>, order: Seq<u32>, cell: int, k: int) -> nat
    decreases k,
{
    if k <= 0 {
        0
    } else {
        let here: nat = if fds.contains_key(order[k - 1]) && fds[order[k - 1]].ref_cnt == cell {
            1
        } else {
            0
        };
        sharers(fds, order, cell, k - 1) + here
    }
}

/// A fork puts one on a count for each descriptor that shares it: the
/// count of a cell goes up by the number of descriptors of the table that
/// share the cell, and no count is made or lost.
pub proof fn law_fork_counts(cnts: Seq<u32>, fds: Map<u32, Fd>, order: Seq<u32>, cell: int, k: int)
    requires
        0 <= k <= order.len(),
        0 <= cell < cnts.len(),
        cnts[cell] + sharers(fds, order, cell, k) <= u32::MAX,
    ensures
        bumped_upto(cnts, fds, order, k).len() == cnts.len(),
        bumped_upto(cnts, fds, order, k)[cell] == cnts[cell] + sharers(fds, order, cell, k),
    decreases k,
{
    if k > 0 {
        law_fork_counts(cnts, fds, order, cell, k - 1);
    }
}


/// Whether the count in a cell has gone up by one, around the end of its
/// range.
pub open spec fn counted_up(before: Seq<u32>, after: Seq<u32>, cell: int) -> bool {
    after[cell] == count_up(before[cell])
}

/// Whether a descriptor of a table shares its count with no other
/// descriptor of the table.
pub open spec fn shares_with_none(fds: Map<u32, Fd>, k: u32) -> bool {
    forall|j: u32| j != k && #[trigger] fds.contains_key(j) ==> fds[j].ref_cnt != fds[k].ref_cnt
}

proof fn lemma_bumped_len(cnts: Seq<u32>, fds: Map<u32, Fd>, order: Seq<u32>, n: int)
    requires
        0 <= n <= order.len(),
    ensures
        bumped_upto(cnts, fds, order, n).len() == cnts.len(),
    decreases n,
{
    if n > 0 {
        lemma_bumped_len(cnts, fds, order, n - 1);
    }
}

/// The count of a descriptor that shares it with no other goes up by one
/// when the descriptor's turn comes, and stays as it is before and after.
proof fn lemma_bumped_alone(cnts: Seq<u32>, fds: Map<u32, Fd>, order: Seq<u32>, k: u32, n: int)
    requires
        0 <= n <= order.len(),
        order.no_duplicates(),
        forall|x: u32| #[trigger] order.contains(x) <==> fds.contains_key(x),
        fds.contains_key(k),
        shares_with_none(fds, k),
        fds[k].ref_cnt < cnts.len(),
    ensures
        bumped_upto(cnts, fds, order, n).len() == cnts.len(),
        bumped_upto(cnts, fds, order, n)[fds[k].ref_cnt as int] == (if order.subrange(0, n).contains(k) {
            count_up(cnts[fds[k].ref_cnt as int])
        } else {
            cnts[fds[k].ref_cnt as int]
        }),
    decreases n,
{
    let cell = fds[k].ref_cnt as int;
    if n > 0 {
        lemma_bumped_alone(cnts, fds, order, k, n - 1);
        let fd = order[n - 1];
        let pre = order.subrange(0, n - 1);
        let now = order.subrange(0, n);
        assert(now =~= pre.push(fd));
        assert(order.contains(fd));
        if fd == k {
            if pre.contains(k) {
                let m = choose|m: int| 0 <= m < pre.len() && pre[m] == k;
                assert(order[m] == order[n - 1]);
            }
            assert(now[n - 1] == k);
        } else {
            assert(fds.contains_key(fd));
            assert(fds[fd].ref_cnt != fds[k].ref_cnt);
            if now.contains(k) {
                let m = choose|m: int| 0 <= m < now.len() && now[m] == k;
                assert(pre[m] == k);
            }
            if pre.contains(k) {
                let m = choose|m: int| 0 <= m < pre.len() && pre[m] == k;
                assert(now[m] == k);
            }
        }
    } else {
        assert(order.subrange(0, 0) =~= Seq::<u32>::empty());
    }
}

} // verus!
