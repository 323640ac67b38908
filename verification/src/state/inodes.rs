//! The inode registry: what the guest's files, directories and transports
//! are, each under a handle that stays good while its inode is kept.
use crate::errors::Errno;
use crate::pipe::PipeView;
use crate::pipe::WasiPipe;
use crate::state::entries::DirEntries;
use crate::state::types::Filestat;
use crate::vfs::VirtualFile;
use crate::vfs::VirtualFileView;
use generational_arena::Arena;
use generational_arena::Index;
use vstd::prelude::*;

verus! {

/// `generational_arena::Arena`, known by the values it holds under their
/// handles.
#[verifier::external_type_specification]
#[verifier::external_body]
#[verifier::reject_recursive_types(T)]
pub struct ExArena<T>(Arena<T>);

/// A handle on an inode: a slot of the registry and the generation of its
/// occupant.
#[derive(Clone, Copy, Debug, PartialEq, Eq, Structural)]
pub struct Inode {
    pub index: usize,
    pub generation: u64,
}

/// Whether a socket is still in use.
#[derive(Clone, Copy, Debug, PartialEq, Eq, Structural)]
pub enum InodeSocketKind {
    Open,
    Closed,
}

/// A network socket, as far as the registry is concerned with it.
#[derive(Clone, Copy, Debug, PartialEq, Eq, Structural)]
pub struct InodeSocket {
    pub kind: InodeSocketKind,
}

/// What an inode is.
#[derive(Debug)]
pub enum Kind {
    File {
        /// The open file, if it is open.
        handle: Option<VirtualFile>,
        /// Where the file lies in the root filesystem.
        path: Vec<u8>,
        /// The one descriptor number under which a special file goes.
        fd: Option<u32>,
    },
    Socket { socket: InodeSocket },
    Pipe { pipe: WasiPipe },
    Dir {
        /// The directory above; every directory but the root has one.
        parent: Option<Inode>,
        /// Where the directory lies in the root filesystem.
        path: Vec<u8>,
        /// The entries that have been looked at so far.
        entries: DirEntries,
    },
    /// The virtual root, whose entries are the preopened directories.
    Root { entries: DirEntries },
    Symlink {
        /// The preopened directory under which the link lies.
        base_po_dir: u32,
        /// The path from that directory to the link.
        path_to_symlink: Vec<u8>,
        /// What the link points to.
        relative_path: Vec<u8>,
    },
    Buffer { buffer: Vec<u8> },
    EventNotifications {
        /// How many events wait.
        counter: u64,
        /// Whether a read takes one event or all of them.
        is_semaphore: bool,
        /// Whether a waiter is to be woken at once.
        immediate: bool,
    },
}

/// What an inode is, as a plain value.
pub enum KindView {
    File { handle: Option<VirtualFileView>, path: Seq<u8>, fd: Option<u32> },
    Socket { socket: InodeSocket },
    Pipe { pipe: PipeView },
    Dir { parent: Option<Inode>, path: Seq<u8>, entries: Map<Seq<u8>, Inode> },
    Root { entries: Map<Seq<u8>, Inode> },
    Symlink { base_po_dir: u32, path_to_symlink: Seq<u8>, relative_path: Seq<u8> },
    Buffer { buffer: Seq<u8> },
    EventNotifications { counter: u64, is_semaphore: bool, immediate: bool },
}

impl Kind {
    pub open spec fn view(&self) -> KindView {
        match *self {
            Kind::File { handle, path, fd } => KindView::File {
                handle: match handle {
                    Some(h) => Some(h@),
                    None => None,
                },
                path: path@,
                fd,
            },
            Kind::Socket { socket } => KindView::Socket { socket },
            Kind::Pipe { pipe } => KindView::Pipe { pipe: pipe@ },
            Kind::Dir { parent, path, entries } => KindView::Dir {
                parent,
                path: path@,
                entries: entries@,
            },
            Kind::Root { entries } => KindView::Root { entries: entries@ },
            Kind::Symlink { base_po_dir, path_to_symlink, relative_path } => KindView::Symlink {
                base_po_dir,
                path_to_symlink: path_to_symlink@,
                relative_path: relative_path@,
            },
            Kind::Buffer { buffer } => KindView::Buffer { buffer: buffer@ },
            Kind::EventNotifications { counter, is_semaphore, immediate } => {
                KindView::EventNotifications { counter, is_semaphore, immediate }
            },
        }
    }
}

/// An inode: its statistics, its name, and what it is.
#[derive(Debug)]
pub struct InodeVal {
    pub stat: Filestat,
    pub is_preopened: bool,
    pub name: Vec<u8>,
    pub kind: Kind,
}

/// An inode as a plain value.
pub struct InodeValView {
    pub stat: Filestat,
    pub is_preopened: bool,
    pub name: Seq<u8>,
    pub kind: KindView,
}

impl InodeVal {
    pub open spec fn view(&self) -> InodeValView {
        InodeValView {
            stat: self.stat,
            is_preopened: self.is_preopened,
            name: self.name@,
            kind: self.kind@,
        }
    }

    /// What the inode is.
    pub fn read(&self) -> (r: &Kind)
        ensures
            *r == self.kind,
    {
        &self.kind
    }

    /// What the inode is, to change it.
    pub fn write(&mut self) -> (r: &mut Kind)
        ensures
            *r == old(self).kind,
            final(self).kind == *final(r),
            final(self).stat == old(self).stat,
            final(self).is_preopened == old(self).is_preopened,
            final(self).name == old(self).name,
    {
        &mut self.kind
    }
}

/// The inodes that an arena holds, each under its handle.
pub uninterp spec fn arena_entries(a: Arena<InodeVal>) -> Map<Inode, InodeVal>;

/// `Arena::new`: an arena that holds nothing.
#[verifier::external_body]
fn arena_new() -> (arena: Arena<InodeVal>)
    ensures
        arena_entries(arena).dom() == Set::<Inode>::empty(),
{
    Arena::new()
}

/// `Arena::insert`: the value is kept under the handle that is returned,
/// which held nothing before, and nothing else changes.
#[verifier::external_body]
fn arena_insert(a: &mut Arena<InodeVal>, v: InodeVal) -> (i: Inode)
    ensures
        !arena_entries(*old(a)).contains_key(i),
        arena_entries(*final(a)) == arena_entries(*old(a)).insert(i, v),
{
    let (index, generation) = a.insert(v).into_raw_parts();
    Inode { index, generation }
}

/// `Arena::get`: the value under a handle, if the arena holds one there.
#[verifier::external_body]
fn arena_get(a: &Arena<InodeVal>, i: Inode) -> (r: Option<&InodeVal>)
    ensures
        r.is_some() == arena_entries(*a).contains_key(i),
        r.is_some() ==> *r.unwrap() == arena_entries(*a)[i],
{
    a.get(Index::from_raw_parts(i.index, i.generation))
}

/// Indexing an `Arena` to change a value: the value under the handle, and
/// the arena holds afterwards what was put there. It panics when nothing
/// is under the handle, which the precondition rules out.
#[verifier::external_body]
fn arena_get_mut(a: &mut Arena<InodeVal>, i: Inode) -> (r: &mut InodeVal)
    requires
        arena_entries(*old(a)).contains_key(i),
    ensures
        *r == arena_entries(*old(a))[i],
        arena_entries(*final(a)) == arena_entries(*old(a)).insert(i, *final(r)),
{
    &mut a[Index::from_raw_parts(i.index, i.generation)]
}

/// `Arena::remove`: takes out and returns the value under a handle, if the
/// arena holds one there.
#[verifier::external_body]
fn arena_remove(a: &mut Arena<InodeVal>, i: Inode) -> (r: Option<InodeVal>)
    ensures
        r.is_some() == arena_entries(*old(a)).contains_key(i),
        r.is_some() ==> r.unwrap() == arena_entries(*old(a))[i],
        arena_entries(*final(a)) == arena_entries(*old(a)).remove(i),
{
    a.remove(Index::from_raw_parts(i.index, i.generation))
}

/// The first place from `k` on that holds the handle.
pub open spec fn first_orphan_from(s: Seq<(Inode, InodeVal)>, i: Inode, k: int) -> Option<int>
    decreases s.len() - k,
{
    if k < 0 || k >= s.len() {
        None
    } else if s[k].0 == i {
        Some(k)
    } else {
        first_orphan_from(s, i, k + 1)
    }
}

proof fn lemma_first_orphan(s: Seq<(Inode, InodeVal)>, i: Inode, k: int)
    requires
        0 <= k <= s.len(),
    ensures
        match first_orphan_from(s, i, k) {
            Some(a) => k <= a < s.len() && s[a].0 == i && forall|j: int|
                k <= j < a ==> (#[trigger] s[j]).0 != i,
            None => forall|j: int| k <= j < s.len() ==> (#[trigger] s[j]).0 != i,
        },
    decreases s.len() - k,
{
    if k < s.len() && s[k].0 != i {
        lemma_first_orphan(s, i, k + 1);
    }
}

proof fn lemma_same_keys(s: Seq<(Inode, InodeVal)>, t: Seq<(Inode, InodeVal)>, i: Inode, k: int)
    requires
        0 <= k <= s.len(),
        s.len() == t.len(),
        forall|j: int| 0 <= j < s.len() ==> (#[trigger] s[j]).0 == t[j].0,
    ensures
        first_orphan_from(s, i, k) == first_orphan_from(t, i, k),
    decreases s.len() - k,
{
    if k < s.len() && s[k].0 != i {
        lemma_same_keys(s, t, i, k + 1);
    }
}

/// The registry.
pub struct WasiInodes {
    /// The inodes that are in use.
    pub arena: Arena<InodeVal>,
    /// Inodes that have left their directory while a descriptor still
    /// leads to them. The first entry of a handle counts.
    pub orphan_fds: Vec<(Inode, InodeVal)>,
    /// The reference counts that descriptors share.
    pub ref_cnts: Vec<u32>,
    /// The seek offsets that descriptors share.
    pub offsets: Vec<u64>,
}

impl WasiInodes {
    /// The inode under a handle: the one in use, else the orphan.
    pub open spec fn lookup(&self, i: Inode) -> Option<InodeVal> {
        if arena_entries(self.arena).contains_key(i) {
            Some(arena_entries(self.arena)[i])
        } else {
            match first_orphan_from(self.orphan_fds@, i, 0) {
                Some(k) => Some(self.orphan_fds@[k].1),
                None => None,
            }
        }
    }

    /// Whether a handle leads to an inode that is in use.
    pub open spec fn in_use(&self, i: Inode) -> bool {
        arena_entries(self.arena).contains_key(i)
    }

    /// The inodes as plain values, each under its handle.
    pub open spec fn view(&self) -> Map<Inode, InodeValView> {
        Map::new(|i: Inode| self.lookup(i).is_some(), |i: Inode| self.lookup(i).unwrap()@)
    }

    /// A registry that holds nothing.
    pub fn new() -> (r: Self)
        ensures
            r@ == Map::<Inode, InodeValView>::empty(),
            r.ref_cnts@.len() == 0,
            r.offsets@.len() == 0,
            r.orphan_fds@.len() == 0,
    {
        let r = WasiInodes {
            arena: arena_new(),
            orphan_fds: Vec::new(),
            ref_cnts: Vec::new(),
            offsets: Vec::new(),
        };
        assert(r@ =~= Map::<Inode, InodeValView>::empty());
        r
    }

    fn find_orphan(&self, inode: Inode) -> (r: Option<usize>)
        ensures
            match r {
                Some(k) => first_orphan_from(self.orphan_fds@, inode, 0) == Some(k as int) && k
                    < self.orphan_fds@.len(),
                None => first_orphan_from(self.orphan_fds@, inode, 0).is_none(),
            },
    {
        let mut k: usize = 0;
        while k < self.orphan_fds.len()
            invariant
                0 <= k <= self.orphan_fds.len(),
                first_orphan_from(self.orphan_fds@, inode, 0) == first_orphan_from(
                    self.orphan_fds@,
                    inode,
                    k as int,
                ),
            decreases self.orphan_fds.len() - k,
        {
            let here = self.orphan_fds[k].0;
            if here.index == inode.index && here.generation == inode.generation {
                return Some(k);
            }
            k += 1;
        }
        None
    }

    /// The inode under a handle: the one in use, else the orphan. `Badf`
    /// when there is neither.
    pub fn get_inodeval(&self, inode: Inode) -> (r: Result<&InodeVal, Errno>)
        ensures
            r.is_ok() == self@.contains_key(inode),
            r.is_ok() ==> Some(*r.unwrap()) == self.lookup(inode) && r.unwrap()@ == self@[inode],
            r.is_err() ==> r.unwrap_err() == Errno::Badf,
    {
        match arena_get(&self.arena, inode) {
            Some(iv) => Ok(iv),
            None => match self.find_orphan(inode) {
                Some(k) => Ok(&self.orphan_fds[k].1),
                None => Err(Errno::Badf),
            },
        }
    }

    /// Whether a handle leads to an inode.
    pub fn contains(&self, inode: Inode) -> (r: bool)
        ensures
            r == self@.contains_key(inode),
    {
        self.get_inodeval(inode).is_ok()
    }

    /// Whether `after` is `self` with the inode under a handle replaced by
    /// `v`, in the place where it is kept.
    pub open spec fn replaced(&self, after: &WasiInodes, inode: Inode, v: InodeVal) -> bool {
        &&& after.ref_cnts == self.ref_cnts
        &&& after.offsets == self.offsets
        &&& if self.in_use(inode) {
            &&& arena_entries(after.arena) == arena_entries(self.arena).insert(inode, v)
            &&& after.orphan_fds == self.orphan_fds
        } else {
            let k = first_orphan_from(self.orphan_fds@, inode, 0).unwrap();
            &&& after.arena == self.arena
            &&& after.orphan_fds@ == self.orphan_fds@.update(k, (self.orphan_fds@[k].0, v))
        }
    }

    /// Replacing the inode under a handle changes the view at that handle
    /// and nowhere else.
    pub proof fn lemma_replaced(&self, after: &WasiInodes, inode: Inode, v: InodeVal)
        requires
            self@.contains_key(inode),
            self.replaced(after, inode, v),
        ensures
            after@ == self@.insert(inode, v@),
            after.lookup(inode) == Some(v),
            forall|j: Inode| j != inode ==> #[trigger] after.lookup(j) == self.lookup(j),
    {
        if !self.in_use(inode) {
            let s0 = self.orphan_fds@;
            let s1 = after.orphan_fds@;
            lemma_first_orphan(s0, inode, 0);
            assert forall|j: Inode| #[trigger]
                first_orphan_from(s1, j, 0) == first_orphan_from(s0, j, 0) by {
                lemma_same_keys(s0, s1, j, 0);
            }
            assert forall|j: Inode| j != inode implies #[trigger] after.lookup(j) == self.lookup(
                j,
            ) by {
                lemma_first_orphan(s0, j, 0);
            }
        }
        assert(after@ =~= self@.insert(inode, v@));
    }

    /// The inode under a handle, to change it: the one in use, else the
    /// orphan. `Badf` when there is neither.
    pub fn get_inodeval_mut(&mut self, inode: Inode) -> (r: Result<&mut InodeVal, Errno>)
        ensures
            r.is_ok() == old(self)@.contains_key(inode),
            r.is_err() ==> r.unwrap_err() == Errno::Badf && *final(self) == *old(self),
            r.is_ok() ==> Some(*r.unwrap()) == old(self).lookup(inode),
            r.is_ok() ==> old(self).replaced(final(self), inode, *final(r.unwrap())),
    {
        if arena_get(&self.arena, inode).is_some() {
            Ok(arena_get_mut(&mut self.arena, inode))
        } else {
            match self.find_orphan(inode) {
                Some(k) => {
                    let slot = &mut self.orphan_fds[k];
                    Ok(&mut slot.1)
                },
                None => Err(Errno::Badf),
            }
        }
    }

    /// Puts an inode into the registry and returns its handle, under which
    /// no inode was in use before.
    pub fn insert(&mut self, val: InodeVal) -> (i: Inode)
        ensures
            !old(self).in_use(i),
            forall|j: Inode| #[trigger] final(self).in_use(j) == (j == i || old(self).in_use(j)),
            final(self)@ == old(self)@.insert(i, val@),
            final(self).lookup(i) == Some(val),
            final(self).orphan_fds == old(self).orphan_fds,
            final(self).ref_cnts == old(self).ref_cnts,
            final(self).offsets == old(self).offsets,
    {
        let i = arena_insert(&mut self.arena, val);
        assert(self@ =~= old(self)@.insert(i, val@));
        i
    }

    /// Takes an inode that is in use out of the registry.
    pub fn remove(&mut self, inode: Inode) -> (r: Option<InodeVal>)
        ensures
            r.is_some() == old(self).in_use(inode),
            r.is_some() ==> Some(r.unwrap()) == old(self).lookup(inode),
            !final(self).in_use(inode),
            forall|j: Inode| j != inode ==> #[trigger] final(self).lookup(j) == old(self).lookup(j),
            final(self).orphan_fds == old(self).orphan_fds,
            final(self).ref_cnts == old(self).ref_cnts,
            final(self).offsets == old(self).offsets,
    {
        arena_remove(&mut self.arena, inode)
    }
}

} // verus!
