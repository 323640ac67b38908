//! Descriptors and the table that holds them.
use crate::state::inodes::Inode;
use std::collections::HashMap;
use vstd::prelude::*;
use vstd::std_specs::hash::*;

verus! {

/// The descriptor may be used to read.
pub const READ: u16 = 1;

/// The descriptor may be used to write.
pub const WRITE: u16 = 2;

/// The descriptor may append. Appending implies writing.
pub const APPEND: u16 = 4;

/// The descriptor empties the file before it writes.
pub const TRUNCATE: u16 = 8;

/// The descriptor may create the file before it writes to it.
pub const CREATE: u16 = 16;

/// An open descriptor.
///
/// Descriptors that were cloned from one another, or carried over a fork,
/// share one reference count and one seek offset: `ref_cnt` and `offset`
/// name the cells of the registry that hold them.
#[derive(Clone, Copy, Debug, PartialEq, Eq, Structural)]
pub struct Fd {
    /// The cell with the number of descriptors that share it. The inode is
    /// acted upon only by the close that finds 1 there.
    pub ref_cnt: usize,
    pub rights: u64,
    pub rights_inheriting: u64,
    pub flags: u16,
    /// The cell with the seek offset.
    pub offset: usize,
    /// How the descriptor can be used: a mask of `READ`, `WRITE`, `APPEND`,
    /// `TRUNCATE` and `CREATE`.
    pub open_flags: u16,
    pub inode: Inode,
}

impl Fd {
    /// The descriptor may be used to read.
    pub const READ: u16 = 1;

    /// The descriptor may be used to write.
    pub const WRITE: u16 = 2;

    /// The descriptor may append. Appending implies writing.
    pub const APPEND: u16 = 4;

    /// The descriptor empties the file before it writes.
    pub const TRUNCATE: u16 = 8;

    /// The descriptor may create the file before it writes to it.
    pub const CREATE: u16 = 16;
}

/// The table of descriptors: a map from numbers to descriptors, and beside
/// it the order in which the numbers came in, by which the table is walked.
#[derive(Debug)]
pub struct FdTable {
    map: HashMap<u32, Fd>,
    order: Vec<u32>,
}

/// The numbers other than `fd`.
pub open spec fn other_than(fd: u32) -> spec_fn(u32) -> bool {
    |k: u32| k != fd
}

impl FdTable {
    /// The table as a map from numbers to descriptors.
    pub closed spec fn view(&self) -> Map<u32, Fd> {
        self.map@
    }

    /// The numbers in the table, in the order in which they are kept.
    pub closed spec fn order(&self) -> Seq<u32> {
        self.order@
    }

    /// Whether the order holds each number of the map once, and nothing
    /// else. A table is made so and stays so.
    pub closed spec fn wf(&self) -> bool {
        &&& self.order@.no_duplicates()
        &&& forall|k: u32| #[trigger] self.order@.contains(k) <==> self.map@.contains_key(k)
    }

    /// The order of a table holds each of its numbers once, and nothing
    /// else.
    pub proof fn lemma_order(&self)
        requires
            self.wf(),
        ensures
            self.order().no_duplicates(),
            forall|k: u32| #[trigger] self.order().contains(k) <==> self@.contains_key(k),
    {
    }

    /// An empty table.
    pub fn new() -> (r: Self)
        ensures
            r@ == Map::<u32, Fd>::empty(),
            r.order() == Seq::<u32>::empty(),
            r.wf(),
    {
        let r = FdTable { map: HashMap::new(), order: Vec::new() };
        assert(r.order() =~= Seq::<u32>::empty());
        r
    }

    /// The descriptor with a number.
    pub fn get(&self, fd: u32) -> (r: Option<Fd>)
        ensures
            r == (if self@.contains_key(fd) {
                Some(self@[fd])
            } else {
                None
            }),
    {
        broadcast use group_hash_axioms;

        match self.map.get(&fd) {
            Some(found) => Some(*found),
            None => None,
        }
    }

    /// Whether a number is in the table.
    pub fn contains_key(&self, fd: u32) -> (r: bool)
        ensures
            r == self@.contains_key(fd),
    {
        broadcast use group_hash_axioms;

        self.map.contains_key(&fd)
    }

    /// The numbers in the table, in the order in which they are kept.
    pub fn keys(&self) -> (r: Vec<u32>)
        ensures
            r@ == self.order(),
    {
        let mut out: Vec<u32> = Vec::new();
        let mut i: usize = 0;
        while i < self.order.len()
            invariant
                0 <= i <= self.order.len(),
                out@ == self.order@.subrange(0, i as int),
            decreases self.order.len() - i,
        {
            out.push(self.order[i]);
            assert(out@ =~= self.order@.subrange(0, i + 1));
            i += 1;
        }
        assert(self.order@.subrange(0, self.order.len() as int) =~= self.order@);
        out
    }

    /// A copy of the table.
    pub fn duplicate(&self) -> (r: Self)
        ensures
            r@ == self@,
            r.order() == self.order(),
            self.wf() ==> r.wf(),
    {
        FdTable { map: self.map.clone(), order: self.keys() }
    }

    /// Puts a descriptor under a number, and returns the one that was
    /// there. A number that is new comes last in the order.
    pub fn insert(&mut self, fd: u32, value: Fd) -> (r: Option<Fd>)
        ensures
            final(self)@ == old(self)@.insert(fd, value),
            r == (if old(self)@.contains_key(fd) {
                Some(old(self)@[fd])
            } else {
                None
            }),
            final(self).order() == (if old(self)@.contains_key(fd) {
                old(self).order()
            } else {
                old(self).order().push(fd)
            }),
            old(self).wf() ==> final(self).wf(),
    {
        broadcast use group_hash_axioms;

        let ghost ord = self.order@;
        let was = self.map.insert(fd, value);
        if was.is_none() {
            self.order.push(fd);
            proof {
                if old(self).wf() {
                    assert forall|k: u32| #[trigger]
                        self.order@.contains(k) <==> self.map@.contains_key(k) by {
                        if self.order@.contains(k) {
                            let j = choose|j: int| 0 <= j < self.order@.len() && self.order@[j] == k;
                            if j < ord.len() {
                                assert(ord[j] == k);
                                assert(ord.contains(k));
                            }
                        }
                        if self.map@.contains_key(k) {
                            if k == fd {
                                assert(self.order@[ord.len() as int] == k);
                            } else {
                                assert(ord.contains(k));
                                let j = choose|j: int| 0 <= j < ord.len() && ord[j] == k;
                                assert(self.order@[j] == k);
                            }
                        }
                    }
                    assert forall|a: int, b: int|
                        0 <= a < self.order@.len() && 0 <= b < self.order@.len() && a != b implies self.order@[a]
                        != self.order@[b] by {
                        if a < ord.len() {
                            assert(ord.contains(ord[a]));
                        }
                        if b < ord.len() {
                            assert(ord.contains(ord[b]));
                        }
                    }
                }
            }
        } else {
            proof {
                if old(self).wf() {
                    assert forall|k: u32| #[trigger]
                        self.order@.contains(k) <==> self.map@.contains_key(k) by {
                        if k == fd {
                            assert(ord.contains(fd));
                        }
                    }
                }
            }
        }
        was
    }

    /// Takes a number out, and returns the descriptor that was under it.
    pub fn remove(&mut self, fd: u32) -> (r: Option<Fd>)
        ensures
            final(self)@ == old(self)@.remove(fd),
            r == (if old(self)@.contains_key(fd) {
                Some(old(self)@[fd])
            } else {
                None
            }),
            final(self).order() == old(self).order().filter(other_than(fd)),
            old(self).wf() ==> final(self).wf(),
    {
        broadcast use group_hash_axioms;

        let ghost ord = self.order@;
        let ghost mut from: Seq<int> = Seq::empty();
        let out = self.map.remove(&fd);
        let mut kept: Vec<u32> = Vec::new();
        let mut i: usize = 0;
        proof {
            assert(ord.subrange(0, 0) =~= Seq::<u32>::empty());
            assert(ord.subrange(0, 0).filter(other_than(fd)) =~= Seq::<u32>::empty()) by {
                reveal(Seq::filter);
            }
        }
        while i < self.order.len()
            invariant
                0 <= i <= self.order.len(),
                self.order@ == ord,
                kept@ == ord.subrange(0, i as int).filter(other_than(fd)),
                from.len() == kept@.len(),
                forall|j: int|
                    0 <= j < from.len() ==> 0 <= (#[trigger] from[j]) < i && kept@[j] == ord[from[j]]
                        && kept@[j] != fd,
                forall|a: int, b: int| 0 <= a < b < from.len() ==> (#[trigger] from[a]) < (#[trigger] from[b]),
                forall|a: int| 0 <= a < i && ord[a] != fd ==> kept@.contains(#[trigger] ord[a]),
            decreases self.order.len() - i,
        {
            let k = self.order[i];
            let ghost kept0 = kept@;
            proof {
                let pre = ord.subrange(0, i as int);
                let post = ord.subrange(0, i + 1);
                assert(post =~= pre.push(ord[i as int]));
                assert(pre.push(ord[i as int]).drop_last() =~= pre);
                reveal(Seq::filter);
            }
            if k != fd {
                kept.push(k);
                proof {
                    from = from.push(i as int);
                    assert(kept@[kept0.len() as int] == k);
                    assert forall|a: int| 0 <= a < i + 1 && ord[a] != fd implies kept@.contains(
                        #[trigger] ord[a],
                    ) by {
                        if a < i {
                            let j = choose|j: int| 0 <= j < kept0.len() && kept0[j] == ord[a];
                            assert(kept@[j] == ord[a]);
                        }
                    }
                }
            }
            i += 1;
        }
        proof {
            assert(ord.subrange(0, ord.len() as int) =~= ord);
            if old(self).wf() {
                let t = kept@;
                assert forall|a: int, b: int| 0 <= a < t.len() && 0 <= b < t.len() && a != b implies t[a]
                    != t[b] by {
                    if a < b {
                        assert(from[a] < from[b]);
                    } else {
                        assert(from[b] < from[a]);
                    }
                }
                assert forall|k: u32| #[trigger] t.contains(k) <==> self.map@.contains_key(k) by {
                    if t.contains(k) {
                        let j = choose|j: int| 0 <= j < t.len() && t[j] == k;
                        assert(ord[from[j]] == k);
                        assert(ord.contains(k));
                    }
                    if self.map@.contains_key(k) {
                        assert(ord.contains(k));
                        let a = choose|a: int| 0 <= a < ord.len() && ord[a] == k;
                        assert(t.contains(ord[a]));
                    }
                }
            }
        }
        self.order = kept;
        out
    }
}

} // verus!
