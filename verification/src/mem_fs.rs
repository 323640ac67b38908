//! A store that keeps its entries in memory.
//!
//! Entries are kept under their normalised component lists: `.` is dropped,
//! `..` steps back, a leading `/` starts again from the root. The root is
//! always a directory. The store has no clock: every time it reports is 0.
use crate::errors::FsError;
use crate::path::bytes_eq;
use crate::path::components;
use crate::path::components_of;
use crate::path::cur_name;
use crate::path::is_cur;
use crate::path::is_parent;
use crate::path::is_root;
use crate::path::join_components;
use crate::path::names_of;
use crate::path::parent_name;
use crate::path::push;
use crate::path::root_name;
use crate::path::SEP;
use crate::vfs::listing_of;
use crate::vfs::DirEntry;
use crate::vfs::DirEntryView;
use crate::vfs::FileSystem;
use crate::vfs::FileType;
use crate::vfs::Metadata;
use crate::vfs::OpenOptionsConfig;
use crate::vfs::VirtualFile;
use crate::vfs::VirtualFileView;
use vstd::prelude::*;
use vstd::slice::slice_to_vec;

verus! {

/// How many links `metadata` follows before it gives up.
pub const MAX_LINK_HOPS: u32 = 32;

/// What an entry of the store is.
#[derive(Clone, Copy, Debug, PartialEq, Eq, Structural)]
pub enum MemKind {
    Dir,
    File,
    Link,
}

/// One entry: its key, its kind, and its bytes (a file's content, a link's
/// target).
#[derive(Debug)]
pub struct MemNode {
    pub key: Vec<Vec<u8>>,
    pub kind: MemKind,
    pub data: Vec<u8>,
}

/// An entry as a plain value.
pub struct MemNodeView {
    pub key: Seq<Seq<u8>>,
    pub kind: MemKind,
    pub data: Seq<u8>,
}

impl MemNode {
    pub open spec fn view(&self) -> MemNodeView {
        MemNodeView { key: names_of(self.key@), kind: self.kind, data: self.data@ }
    }
}

/// The in-memory store.
#[derive(Debug)]
pub struct MemFileSystem {
    nodes: Vec<MemNode>,
}

/// A key with one more component applied to it.
pub open spec fn apply_component(acc: Seq<Seq<u8>>, comp: Seq<u8>) -> Seq<Seq<u8>> {
    if comp == root_name() {
        Seq::empty()
    } else if comp == cur_name() {
        acc
    } else if comp == parent_name() {
        if acc.len() > 0 {
            acc.drop_last()
        } else {
            acc
        }
    } else {
        acc.push(comp)
    }
}

/// A key with a list of components applied to it, one after the other.
pub open spec fn normalize_onto(acc: Seq<Seq<u8>>, c: Seq<Seq<u8>>) -> Seq<Seq<u8>>
    decreases c.len(),
{
    if c.len() == 0 {
        acc
    } else {
        apply_component(normalize_onto(acc, c.drop_last()), c.last())
    }
}

/// The key under which the store keeps what is at a path.
pub open spec fn key_of(path: Seq<u8>) -> Seq<Seq<u8>> {
    normalize_onto(Seq::empty(), components_of(path))
}

/// The first entry at or behind `i` that has the key.
pub open spec fn find_from(st: Seq<MemNodeView>, key: Seq<Seq<u8>>, i: int) -> Option<int>
    decreases st.len() - i,
{
    if i < 0 || i >= st.len() {
        None
    } else if st[i].key == key {
        Some(i)
    } else {
        find_from(st, key, i + 1)
    }
}

/// The first entry with the key.
pub open spec fn find(st: Seq<MemNodeView>, key: Seq<Seq<u8>>) -> Option<int> {
    find_from(st, key, 0)
}

/// The file type of a kind of entry.
pub open spec fn type_of(kind: MemKind) -> FileType {
    match kind {
        MemKind::Dir => FileType::Dir,
        MemKind::File => FileType::File,
        MemKind::Link => FileType::Symlink,
    }
}

/// The metadata of an entry.
pub open spec fn node_meta(n: MemNodeView) -> Metadata {
    Metadata { ft: type_of(n.kind), accessed: 0, created: 0, modified: 0, len: n.data.len() as u64 }
}

/// The metadata of the root.
pub open spec fn root_meta() -> Metadata {
    Metadata { ft: FileType::Dir, accessed: 0, created: 0, modified: 0, len: 0 }
}

/// Whether a directory is kept under the key.
pub open spec fn has_dir(st: Seq<MemNodeView>, key: Seq<Seq<u8>>) -> bool {
    key.len() == 0 || match find(st, key) {
        Some(i) => st[i].kind == MemKind::Dir,
        None => false,
    }
}

/// Whether an entry lies directly under the key.
pub open spec fn is_child(n: MemNodeView, key: Seq<Seq<u8>>) -> bool {
    n.key.len() > 0 && n.key.drop_last() == key
}

/// Whether any entry lies directly under the key.
pub open spec fn has_child(st: Seq<MemNodeView>, key: Seq<Seq<u8>>) -> bool {
    exists|i: int| 0 <= i < st.len() && is_child(#[trigger] st[i], key)
}

/// Why nothing can be put directly under the key, if anything.
pub open spec fn parent_error(st: Seq<MemNodeView>, key: Seq<Seq<u8>>) -> Option<FsError> {
    if key.len() == 0 {
        None
    } else {
        match find(st, key) {
            Some(i) => if st[i].kind == MemKind::Dir {
                None
            } else {
                Some(FsError::BaseNotDirectory)
            },
            None => Some(FsError::EntryNotFound),
        }
    }
}

/// What a well-formed state keeps: keys are not empty, no key occurs twice,
/// and every entry lies in a directory.
pub open spec fn state_ok(st: Seq<MemNodeView>) -> bool {
    &&& forall|i: int| 0 <= i < st.len() ==> (#[trigger] st[i]).key.len() > 0
    &&& forall|i: int, j: int|
        0 <= i < st.len() && 0 <= j < st.len() && (#[trigger] st[i]).key == (#[trigger] st[j]).key
            ==> i == j
    &&& forall|i: int| 0 <= i < st.len() ==> has_dir(st, (#[trigger] st[i]).key.drop_last())
}

/// The metadata of what a key leads to, through at most `fuel` links.
pub open spec fn follow(st: Seq<MemNodeView>, key: Seq<Seq<u8>>, fuel: nat) -> Result<
    Metadata,
    FsError,
>
    decreases fuel,
{
    if key.len() == 0 {
        Ok(root_meta())
    } else {
        match find(st, key) {
            None => Err(FsError::EntryNotFound),
            Some(i) => if st[i].kind != MemKind::Link {
                Ok(node_meta(st[i]))
            } else if fuel == 0 {
                Err(FsError::EntryNotFound)
            } else {
                follow(
                    st,
                    normalize_onto(key.drop_last(), components_of(st[i].data)),
                    (fuel - 1) as nat,
                )
            },
        }
    }
}

/// The full path of a key.
pub open spec fn path_of_key(key: Seq<Seq<u8>>) -> Seq<u8> {
    join_components(seq![root_name()] + key)
}

/// The listing entries of the children of `key` among the first `n` entries,
/// in the order in which the store keeps them.
pub open spec fn children_upto(st: Seq<MemNodeView>, key: Seq<Seq<u8>>, n: int) -> Seq<
    DirEntryView,
>
    decreases n,
{
    if n <= 0 {
        Seq::empty()
    } else if is_child(st[n - 1], key) {
        children_upto(st, key, n - 1).push(
            DirEntryView { path: path_of_key(st[n - 1].key), metadata: node_meta(st[n - 1]) },
        )
    } else {
        children_upto(st, key, n - 1)
    }
}

/// What opening an entry that is there gives, and the data it leaves.
pub open spec fn opened_data(data: Seq<u8>, conf: OpenOptionsConfig) -> Seq<u8> {
    if conf.truncate && conf.write {
        Seq::empty()
    } else {
        data
    }
}

/// The open file over `data`.
pub open spec fn opened_file(data: Seq<u8>, conf: OpenOptionsConfig) -> VirtualFileView {
    VirtualFileView {
        data,
        cursor: if conf.append {
            data.len()
        } else {
            0
        },
        accessed: 0,
        modified: 0,
        created: 0,
    }
}

pub proof fn lemma_find(st: Seq<MemNodeView>, key: Seq<Seq<u8>>, i: int)
    requires
        0 <= i <= st.len(),
    ensures
        match find_from(st, key, i) {
            Some(k) => i <= k < st.len() && st[k].key == key && forall|j: int|
                i <= j < k ==> (#[trigger] st[j]).key != key,
            None => forall|j: int| i <= j < st.len() ==> (#[trigger] st[j]).key != key,
        },
    decreases st.len() - i,
{
    if i < st.len() && st[i].key != key {
        lemma_find(st, key, i + 1);
    }
}

proof fn lemma_normalize_snoc(acc: Seq<Seq<u8>>, c: Seq<Seq<u8>>, k: int)
    requires
        0 <= k < c.len(),
    ensures
        normalize_onto(acc, c.subrange(0, k + 1)) == apply_component(
            normalize_onto(acc, c.subrange(0, k)),
            c[k],
        ),
{
    assert(c.subrange(0, k + 1).drop_last() =~= c.subrange(0, k));
}

/// Whether two keys are equal.
fn keys_eq(a: &Vec<Vec<u8>>, b: &Vec<Vec<u8>>) -> (r: bool)
    ensures
        r == (names_of(a@) == names_of(b@)),
{
    if a.len() != b.len() {
        assert(names_of(a@).len() != names_of(b@).len());
        return false;
    }
    let mut i: usize = 0;
    while i < a.len()
        invariant
            a.len() == b.len(),
            0 <= i <= a.len(),
            forall|k: int| 0 <= k < i ==> a@[k]@ == b@[k]@,
        decreases a.len() - i,
    {
        if !bytes_eq(a[i].as_slice(), b[i].as_slice()) {
            assert(names_of(a@)[i as int] != names_of(b@)[i as int]);
            return false;
        }
        i += 1;
    }
    assert(names_of(a@) =~= names_of(b@));
    true
}

/// Whether `a` is `b` with one more component.
fn is_child_key(a: &Vec<Vec<u8>>, b: &Vec<Vec<u8>>) -> (r: bool)
    ensures
        r == (names_of(a@).len() > 0 && names_of(a@).drop_last() == names_of(b@)),
{
    if a.len() == 0 || a.len() - 1 != b.len() {
        assert(names_of(a@).len() == a.len() && names_of(b@).len() == b.len());
        assert(a.len() > 0 ==> names_of(a@).drop_last().len() != names_of(b@).len());
        return false;
    }
    let mut i: usize = 0;
    while i < b.len()
        invariant
            a.len() == b.len() + 1,
            0 <= i <= b.len(),
            forall|k: int| 0 <= k < i ==> a@[k]@ == b@[k]@,
        decreases b.len() - i,
    {
        if !bytes_eq(a[i].as_slice(), b[i].as_slice()) {
            assert(names_of(a@).drop_last()[i as int] != names_of(b@)[i as int]);
            return false;
        }
        i += 1;
    }
    assert(names_of(a@).drop_last() =~= names_of(b@));
    true
}

/// A copy of a key.
fn copy_key(a: &Vec<Vec<u8>>, upto: usize) -> (r: Vec<Vec<u8>>)
    requires
        upto <= a.len(),
    ensures
        names_of(r@) == names_of(a@).subrange(0, upto as int),
{
    let mut out: Vec<Vec<u8>> = Vec::new();
    let mut i: usize = 0;
    while i < upto
        invariant
            0 <= i <= upto <= a.len(),
            names_of(out@) == names_of(a@).subrange(0, i as int),
        decreases upto - i,
    {
        let ghost before = names_of(out@);
        let piece = slice_to_vec(a[i].as_slice());
        assert(piece@ == a@[i as int]@);
        out.push(piece);
        assert(names_of(out@) =~= before.push(a@[i as int]@));
        assert(names_of(out@) =~= names_of(a@).subrange(0, i + 1));
        i += 1;
    }
    assert(names_of(out@) =~= names_of(a@).subrange(0, upto as int));
    out
}

/// Applies the components of a path to a key.
fn apply_path(base: Vec<Vec<u8>>, path: &[u8]) -> (r: Vec<Vec<u8>>)
    ensures
        names_of(r@) == normalize_onto(names_of(base@), components_of(path@)),
{
    let c = components(path);
    let mut out = base;
    let mut k: usize = 0;
    let ghost comps = components_of(path@);
    assert(comps.subrange(0, 0) =~= Seq::<Seq<u8>>::empty());
    while k < c.len()
        invariant
            0 <= k <= c.len(),
            comps == names_of(c@),
            names_of(out@) == normalize_onto(names_of(base@), comps.subrange(0, k as int)),
        decreases c.len() - k,
    {
        let comp = c[k].as_slice();
        let ghost before = names_of(out@);
        proof {
            lemma_normalize_snoc(names_of(base@), comps, k as int);
        }
        if is_root(comp) {
            out.clear();
            assert(names_of(out@) =~= apply_component(before, comps[k as int]));
        } else if is_cur(comp) {
        } else if is_parent(comp) {
            if out.len() > 0 {
                out.pop();
            }
            assert(names_of(out@) =~= apply_component(before, comps[k as int]));
        } else {
            out.push(slice_to_vec(comp));
            assert(names_of(out@) =~= apply_component(before, comps[k as int]));
        }
        k += 1;
    }
    assert(comps.subrange(0, c.len() as int) =~= comps);
    out
}

/// The key of a path.
fn key_for(path: &[u8]) -> (r: Vec<Vec<u8>>)
    ensures
        names_of(r@) == key_of(path@),
{
    let base: Vec<Vec<u8>> = Vec::new();
    assert(names_of(base@) =~= Seq::<Seq<u8>>::empty());
    apply_path(base, path)
}

/// The full path of a key.
fn path_for(key: &Vec<Vec<u8>>) -> (r: Vec<u8>)
    ensures
        r@ == path_of_key(names_of(key@)),
{
    let mut out: Vec<u8> = Vec::new();
    out.push(SEP);
    let ghost all = seq![root_name()] + names_of(key@);
    assert(all.subrange(0, 1) =~= seq![root_name()]);
    assert(seq![root_name()].drop_last() =~= Seq::<Seq<u8>>::empty());
    assert(out@ =~= root_name());
    assert(join_components(seq![root_name()]) == root_name()) by {
        assert(join_components(seq![root_name()].drop_last()) =~= Seq::<u8>::empty());
        assert(seq![root_name()].last() == root_name());
    }
    let mut k: usize = 0;
    while k < key.len()
        invariant
            0 <= k <= key.len(),
            all == seq![root_name()] + names_of(key@),
            out@ == join_components(all.subrange(0, k + 1)),
        decreases key.len() - k,
    {
        push(&mut out, key[k].as_slice());
        assert(all.subrange(0, k + 2).drop_last() =~= all.subrange(0, k + 1));
        assert(all.subrange(0, k + 2).last() == key@[k as int]@);
        k += 1;
    }
    assert(all.subrange(0, key.len() + 1) =~= all);
    out
}

impl MemFileSystem {
    /// The entries as plain values.
    pub closed spec fn nodes_view(&self) -> Seq<MemNodeView> {
        Seq::new(self.nodes@.len(), |i: int| self.nodes@[i]@)
    }

    /// A store that holds the root and nothing else.
    pub fn new() -> (r: Self)
        ensures
            r.inv(),
            r@ == Seq::<MemNodeView>::empty(),
    {
        let r = MemFileSystem { nodes: Vec::new() };
        assert(r.nodes_view() =~= Seq::<MemNodeView>::empty());
        r
    }

    fn find_index(&self, key: &Vec<Vec<u8>>) -> (r: Option<usize>)
        ensures
            match r {
                Some(i) => find(self@, names_of(key@)) == Some(i as int) && i < self.nodes.len(),
                None => find(self@, names_of(key@)).is_none(),
            },
    {
        let mut i: usize = 0;
        while i < self.nodes.len()
            invariant
                0 <= i <= self.nodes.len(),
                self.nodes_view().len() == self.nodes.len(),
                find(self.nodes_view(), names_of(key@)) == find_from(
                    self.nodes_view(),
                    names_of(key@),
                    i as int,
                ),
            decreases self.nodes.len() - i,
        {
            if keys_eq(&self.nodes[i].key, key) {
                return Some(i);
            }
            i += 1;
        }
        None
    }

    fn any_child(&self, key: &Vec<Vec<u8>>) -> (r: bool)
        ensures
            r == has_child(self@, names_of(key@)),
    {
        let mut i: usize = 0;
        while i < self.nodes.len()
            invariant
                0 <= i <= self.nodes.len(),
                self.nodes_view().len() == self.nodes.len(),
                forall|j: int| 0 <= j < i ==> !is_child(#[trigger] self.nodes_view()[j], names_of(key@)),
            decreases self.nodes.len() - i,
        {
            if is_child_key(&self.nodes[i].key, key) {
                assert(is_child(self.nodes_view()[i as int], names_of(key@)));
                return true;
            }
            i += 1;
        }
        false
    }

    fn parent_check(&self, key: &Vec<Vec<u8>>) -> (r: Option<FsError>)
        requires
            key.len() > 0,
        ensures
            r == parent_error(self@, names_of(key@).drop_last()),
    {
        let up = copy_key(key, key.len() - 1);
        assert(names_of(key@).subrange(0, key.len() - 1) =~= names_of(key@).drop_last());
        if up.len() == 0 {
            return None;
        }
        match self.find_index(&up) {
            Some(i) => {
                if matches!(self.nodes[i].kind, MemKind::Dir) {
                    None
                } else {
                    Some(FsError::BaseNotDirectory)
                }
            },
            None => Some(FsError::EntryNotFound),
        }
    }

    fn meta_at(&self, i: usize) -> (r: Metadata)
        requires
            i < self.nodes.len(),
        ensures
            r == node_meta(self@[i as int]),
    {
        let n = &self.nodes[i];
        let ft = match n.kind {
            MemKind::Dir => FileType::Dir,
            MemKind::File => FileType::File,
            MemKind::Link => FileType::Symlink,
        };
        Metadata { ft, accessed: 0, created: 0, modified: 0, len: n.data.len() as u64 }
    }

    /// Puts `data` into the file at the path, making the file if it is
    /// missing.
    pub fn write_file(&mut self, path: &[u8], data: &[u8]) -> (r: Result<(), FsError>)
        requires
            old(self).inv(),
        ensures
            final(self).inv(),
            r == write_file_spec(old(self)@, path@, data@).0,
            final(self)@ == write_file_spec(old(self)@, path@, data@).1,
    {
        let key = key_for(path);
        if key.len() == 0 {
            return Err(FsError::NotAFile);
        }
        proof {
            lemma_find(self@, names_of(key@), 0);
        }
        match self.find_index(&key) {
            Some(i) => {
                if !matches!(self.nodes[i].kind, MemKind::File) {
                    return Err(FsError::NotAFile);
                }
                let ghost before = self@;
                let node = MemNode { key, kind: MemKind::File, data: slice_to_vec(data) };
                self.nodes.set(i, node);
                proof {
                    assert(self@ =~= before.update(
                        i as int,
                        MemNodeView { data: data@, ..before[i as int] },
                    ));
                    lemma_update_data_ok(before, i as int, data@);
                }
                Ok(())
            },
            None => {
                if let Some(e) = self.parent_check(&key) {
                    return Err(e);
                }
                let ghost before = self@;
                let node = MemNode { key, kind: MemKind::File, data: slice_to_vec(data) };
                let ghost nv = node@;
                self.nodes.push(node);
                proof {
                    assert(self@ =~= before.push(nv));
                    lemma_push_ok(before, nv);
                }
                Ok(())
            },
        }
    }

    /// Makes a link at the path that points to `target`.
    pub fn symlink(&mut self, path: &[u8], target: &[u8]) -> (r: Result<(), FsError>)
        requires
            old(self).inv(),
        ensures
            final(self).inv(),
            r == symlink_spec(old(self)@, path@, target@).0,
            final(self)@ == symlink_spec(old(self)@, path@, target@).1,
    {
        let key = key_for(path);
        if key.len() == 0 {
            return Err(FsError::AlreadyExists);
        }
        proof {
            lemma_find(self@, names_of(key@), 0);
        }
        if self.find_index(&key).is_some() {
            return Err(FsError::AlreadyExists);
        }
        if let Some(e) = self.parent_check(&key) {
            return Err(e);
        }
        let ghost before = self@;
        let node = MemNode { key, kind: MemKind::Link, data: slice_to_vec(target) };
        let ghost nv = node@;
        self.nodes.push(node);
        proof {
            assert(self@ =~= before.push(nv));
            lemma_push_ok(before, nv);
        }
        Ok(())
    }
}

/// The outcome of putting `data` into the file at a path.
pub open spec fn write_file_spec(st: Seq<MemNodeView>, path: Seq<u8>, data: Seq<u8>) -> (
    Result<(), FsError>,
    Seq<MemNodeView>,
) {
    let key = key_of(path);
    if key.len() == 0 {
        (Err(FsError::NotAFile), st)
    } else {
        match find(st, key) {
            Some(i) => if st[i].kind != MemKind::File {
                (Err(FsError::NotAFile), st)
            } else {
                (Ok(()), st.update(i, MemNodeView { data, ..st[i] }))
            },
            None => match parent_error(st, key.drop_last()) {
                Some(e) => (Err(e), st),
                None => (Ok(()), st.push(MemNodeView { key, kind: MemKind::File, data })),
            },
        }
    }
}

/// The outcome of making a link.
pub open spec fn symlink_spec(st: Seq<MemNodeView>, path: Seq<u8>, target: Seq<u8>) -> (
    Result<(), FsError>,
    Seq<MemNodeView>,
) {
    let key = key_of(path);
    if key.len() == 0 || find(st, key).is_some() {
        (Err(FsError::AlreadyExists), st)
    } else {
        match parent_error(st, key.drop_last()) {
            Some(e) => (Err(e), st),
            None => (Ok(()), st.push(MemNodeView { key, kind: MemKind::Link, data: target })),
        }
    }
}

/// Putting a new entry into a directory keeps the state well formed.
pub proof fn lemma_push_ok(st: Seq<MemNodeView>, n: MemNodeView)
    requires
        state_ok(st),
        n.key.len() > 0,
        find(st, n.key).is_none(),
        parent_error(st, n.key.drop_last()).is_none(),
    ensures
        state_ok(st.push(n)),
        find(st.push(n), n.key) == Some(st.len() as int),
{
    let st2 = st.push(n);
    lemma_find(st, n.key, 0);
    lemma_find(st2, n.key, 0);
    assert(st2[st.len() as int] == n);
    assert forall|j: int| 0 <= j < st.len() implies (#[trigger] st2[j]).key != n.key by {
        assert(st2[j] == st[j]);
    }
    assert forall|i: int| 0 <= i < st2.len() implies has_dir(st2, (#[trigger] st2[i]).key.drop_last()) by {
        let up = st2[i].key.drop_last();
        if up.len() > 0 {
            lemma_find(st, up, 0);
            lemma_find(st2, up, 0);
            let k = find(st, up).unwrap();
            assert(st2[k] == st[k]);
        }
    }
    assert forall|i: int, j: int|
        0 <= i < st2.len() && 0 <= j < st2.len() && (#[trigger] st2[i]).key == (#[trigger] st2[j]).key
        implies i == j by {
        if i < st.len() && j < st.len() {
            assert(st[i].key == st[j].key);
        }
    }
}

/// Changing the bytes of an entry keeps the state well formed.
pub proof fn lemma_update_data_ok(st: Seq<MemNodeView>, i: int, data: Seq<u8>)
    requires
        state_ok(st),
        0 <= i < st.len(),
    ensures
        state_ok(st.update(i, MemNodeView { data, ..st[i] })),
{
    let st2 = st.update(i, MemNodeView { data, ..st[i] });
    assert forall|a: int| 0 <= a < st2.len() implies has_dir(st2, (#[trigger] st2[a]).key.drop_last()) by {
        let up = st2[a].key.drop_last();
        assert(st[a].key == st2[a].key);
        if up.len() > 0 {
            lemma_find(st, up, 0);
            lemma_find(st2, up, 0);
            let k = find(st, up).unwrap();
            assert(st2[k].key == st[k].key);
            assert(st2[k].kind == st[k].kind);
            let k2 = find(st2, up).unwrap();
            assert(st[k2].key == st2[k2].key);
        }
    }
    assert forall|a: int, b: int|
        0 <= a < st2.len() && 0 <= b < st2.len() && (#[trigger] st2[a]).key == (#[trigger] st2[b]).key
        implies a == b by {
        assert(st[a].key == st[b].key);
    }
    assert forall|a: int| 0 <= a < st2.len() implies (#[trigger] st2[a]).key.len() > 0 by {
        assert(st[a].key == st2[a].key);
    }
}

/// Taking out an entry under which nothing lies keeps the state well formed.
pub proof fn lemma_remove_ok(st: Seq<MemNodeView>, i: int)
    requires
        state_ok(st),
        0 <= i < st.len(),
        !has_child(st, st[i].key),
    ensures
        state_ok(st.remove(i)),
        find(st.remove(i), st[i].key).is_none(),
{
    let st2 = st.remove(i);
    let key = st[i].key;
    lemma_find(st2, key, 0);
    assert forall|a: int| 0 <= a < st2.len() implies (#[trigger] st2[a]).key != key by {
        let b = if a < i {
            a
        } else {
            a + 1
        };
        assert(st2[a] == st[b]);
    }
    assert forall|a: int| 0 <= a < st2.len() implies has_dir(st2, (#[trigger] st2[a]).key.drop_last()) by {
        let b = if a < i {
            a
        } else {
            a + 1
        };
        assert(st2[a] == st[b]);
        let up = st2[a].key.drop_last();
        if up.len() > 0 {
            lemma_find(st, up, 0);
            lemma_find(st2, up, 0);
            let k = find(st, up).unwrap();
            assert(!is_child(st[b], key));
            assert(k != i);
            let k2 = if k < i {
                k
            } else {
                k - 1
            };
            assert(st2[k2] == st[k]);
            let f = find(st2, up).unwrap();
            let fb = if f < i {
                f
            } else {
                f + 1
            };
            assert(st2[f] == st[fb]);
        }
    }
    assert forall|a: int, b: int|
        0 <= a < st2.len() && 0 <= b < st2.len() && (#[trigger] st2[a]).key == (#[trigger] st2[b]).key
        implies a == b by {
        let a1 = if a < i {
            a
        } else {
            a + 1
        };
        let b1 = if b < i {
            b
        } else {
            b + 1
        };
        assert(st2[a] == st[a1]);
        assert(st2[b] == st[b1]);
    }
    assert forall|a: int| 0 <= a < st2.len() implies (#[trigger] st2[a]).key.len() > 0 by {
        let b = if a < i {
            a
        } else {
            a + 1
        };
        assert(st2[a] == st[b]);
    }
}


/// The outcome of making a directory.
pub open spec fn mem_create_dir(st: Seq<MemNodeView>, path: Seq<u8>) -> (
    Result<(), FsError>,
    Seq<MemNodeView>,
) {
    let key = key_of(path);
    if key.len() == 0 || find(st, key).is_some() {
        (Err(FsError::AlreadyExists), st)
    } else {
        match parent_error(st, key.drop_last()) {
            Some(e) => (Err(e), st),
            None => (
                Ok(()),
                st.push(MemNodeView { key, kind: MemKind::Dir, data: Seq::empty() }),
            ),
        }
    }
}

/// The outcome of removing a directory.
pub open spec fn mem_remove_dir(st: Seq<MemNodeView>, path: Seq<u8>) -> (
    Result<(), FsError>,
    Seq<MemNodeView>,
) {
    let key = key_of(path);
    if key.len() == 0 {
        (Err(FsError::PermissionDenied), st)
    } else {
        match find(st, key) {
            None => (Err(FsError::EntryNotFound), st),
            Some(i) => if st[i].kind != MemKind::Dir {
                (Err(FsError::BaseNotDirectory), st)
            } else if has_child(st, key) {
                (Err(FsError::DirectoryNotEmpty), st)
            } else {
                (Ok(()), st.remove(i))
            },
        }
    }
}

/// The outcome of removing a file or a link.
pub open spec fn mem_remove_file(st: Seq<MemNodeView>, path: Seq<u8>) -> (
    Result<(), FsError>,
    Seq<MemNodeView>,
) {
    let key = key_of(path);
    if key.len() == 0 {
        (Err(FsError::NotAFile), st)
    } else {
        match find(st, key) {
            None => (Err(FsError::EntryNotFound), st),
            Some(i) => if st[i].kind == MemKind::Dir {
                (Err(FsError::NotAFile), st)
            } else {
                (Ok(()), st.remove(i))
            },
        }
    }
}

/// The outcome of moving an entry. The target must be free and lie in a
/// directory; a directory that holds entries does not move.
pub open spec fn mem_rename(st: Seq<MemNodeView>, from: Seq<u8>, to: Seq<u8>) -> (
    Result<(), FsError>,
    Seq<MemNodeView>,
) {
    let kf = key_of(from);
    let kt = key_of(to);
    if kf.len() == 0 {
        (Err(FsError::PermissionDenied), st)
    } else {
        match find(st, kf) {
            None => (Err(FsError::EntryNotFound), st),
            Some(i) => if kt.len() == 0 || find(st, kt).is_some() || has_child(st, kf)
                || kt.drop_last() == kf {
                (Err(FsError::PermissionDenied), st)
            } else {
                match parent_error(st, kt.drop_last()) {
                    Some(e) => (Err(e), st),
                    None => (Ok(()), st.update(i, MemNodeView { key: kt, ..st[i] })),
                }
            },
        }
    }
}

/// What the entry at a path is, itself.
pub open spec fn mem_symlink_metadata(st: Seq<MemNodeView>, path: Seq<u8>) -> Result<
    Metadata,
    FsError,
> {
    let key = key_of(path);
    if key.len() == 0 {
        Ok(root_meta())
    } else {
        match find(st, key) {
            None => Err(FsError::EntryNotFound),
            Some(i) => Ok(node_meta(st[i])),
        }
    }
}

/// What a link at a path points to.
pub open spec fn mem_read_link(st: Seq<MemNodeView>, path: Seq<u8>) -> Result<Seq<u8>, FsError> {
    let key = key_of(path);
    if key.len() == 0 {
        Err(FsError::InvalidInput)
    } else {
        match find(st, key) {
            None => Err(FsError::EntryNotFound),
            Some(i) => if st[i].kind == MemKind::Link {
                Ok(st[i].data)
            } else {
                Err(FsError::InvalidInput)
            },
        }
    }
}

/// The listing of a directory.
pub open spec fn mem_read_dir(st: Seq<MemNodeView>, path: Seq<u8>) -> Result<
    Seq<DirEntryView>,
    FsError,
> {
    let key = key_of(path);
    if key.len() > 0 && find(st, key).is_none() {
        Err(FsError::EntryNotFound)
    } else if !has_dir(st, key) {
        Err(FsError::BaseNotDirectory)
    } else {
        Ok(children_upto(st, key, st.len() as int))
    }
}

/// The outcome of opening a file.
pub open spec fn mem_open(st: Seq<MemNodeView>, path: Seq<u8>, conf: OpenOptionsConfig) -> (
    Result<VirtualFileView, FsError>,
    Seq<MemNodeView>,
) {
    let key = key_of(path);
    if key.len() == 0 {
        (Err(FsError::NotAFile), st)
    } else {
        match find(st, key) {
            Some(i) => if st[i].kind != MemKind::File {
                (Err(FsError::NotAFile), st)
            } else if conf.create_new {
                (Err(FsError::AlreadyExists), st)
            } else {
                let data = opened_data(st[i].data, conf);
                (Ok(opened_file(data, conf)), st.update(i, MemNodeView { data, ..st[i] }))
            },
            None => if !conf.would_create() {
                (Err(FsError::EntryNotFound), st)
            } else {
                match parent_error(st, key.drop_last()) {
                    Some(e) => (Err(e), st),
                    None => (
                        Ok(opened_file(Seq::empty(), conf)),
                        st.push(MemNodeView { key, kind: MemKind::File, data: Seq::empty() }),
                    ),
                }
            },
        }
    }
}

/// Moving an entry under which nothing lies to a free key in a directory
/// keeps the state well formed.
pub proof fn lemma_rekey_ok(st: Seq<MemNodeView>, i: int, kt: Seq<Seq<u8>>)
    requires
        state_ok(st),
        0 <= i < st.len(),
        kt.len() > 0,
        find(st, kt).is_none(),
        !has_child(st, st[i].key),
        kt.drop_last() != st[i].key,
        parent_error(st, kt.drop_last()).is_none(),
    ensures
        state_ok(st.update(i, MemNodeView { key: kt, ..st[i] })),
{
    let st2 = st.update(i, MemNodeView { key: kt, ..st[i] });
    lemma_find(st, kt, 0);
    assert forall|a: int, b: int|
        0 <= a < st2.len() && 0 <= b < st2.len() && (#[trigger] st2[a]).key == (#[trigger] st2[b]).key
        implies a == b by {
        if a != i && b != i {
            assert(st[a].key == st[b].key);
        } else if a != i {
            assert(st[a].key == kt);
        } else if b != i {
            assert(st[b].key == kt);
        }
    }
    assert forall|a: int| 0 <= a < st2.len() implies (#[trigger] st2[a]).key.len() > 0 by {
        if a != i {
            assert(st[a].key == st2[a].key);
        }
    }
    assert forall|a: int| 0 <= a < st2.len() implies has_dir(st2, (#[trigger] st2[a]).key.drop_last()) by {
        let up = st2[a].key.drop_last();
        if up.len() > 0 {
            lemma_find(st, up, 0);
            lemma_find(st2, up, 0);
            if a != i {
                assert(st[a].key == st2[a].key);
                assert(!is_child(st[a], st[i].key));
            }
            let k = find(st, up).unwrap();
            assert(st[k].key == up);
            assert(k != i);
            assert(st2[k] == st[k]);
            let f = find(st2, up).unwrap();
            if f == i {
                assert(kt == up);
                assert(st[k].key == kt);
            } else {
                assert(st2[f] == st[f]);
            }
        }
    }
}

impl FileSystem for MemFileSystem {
    type V = Seq<MemNodeView>;

    closed spec fn view(&self) -> Seq<MemNodeView> {
        self.nodes_view()
    }

    open spec fn inv(&self) -> bool {
        state_ok(self@)
    }

    proof fn law_made_dir_is_dir(&self, path: Seq<u8>) {
        law_create_remove_dir(self@, path);
    }

    proof fn law_dir_round_trip(&self, path: Seq<u8>) {
        law_create_remove_dir(self@, path);
    }

    open spec fn read_dir_spec(st: Seq<MemNodeView>, path: Seq<u8>) -> Result<
        Seq<DirEntryView>,
        FsError,
    > {
        mem_read_dir(st, path)
    }

    open spec fn metadata_spec(st: Seq<MemNodeView>, path: Seq<u8>) -> Result<Metadata, FsError> {
        follow(st, key_of(path), MAX_LINK_HOPS as nat)
    }

    open spec fn symlink_metadata_spec(st: Seq<MemNodeView>, path: Seq<u8>) -> Result<
        Metadata,
        FsError,
    > {
        mem_symlink_metadata(st, path)
    }

    open spec fn read_link_spec(st: Seq<MemNodeView>, path: Seq<u8>) -> Result<Seq<u8>, FsError> {
        mem_read_link(st, path)
    }

    open spec fn create_dir_spec(st: Seq<MemNodeView>, path: Seq<u8>) -> (
        Result<(), FsError>,
        Seq<MemNodeView>,
    ) {
        mem_create_dir(st, path)
    }

    open spec fn remove_dir_spec(st: Seq<MemNodeView>, path: Seq<u8>) -> (
        Result<(), FsError>,
        Seq<MemNodeView>,
    ) {
        mem_remove_dir(st, path)
    }

    open spec fn rename_spec(st: Seq<MemNodeView>, from: Seq<u8>, to: Seq<u8>) -> (
        Result<(), FsError>,
        Seq<MemNodeView>,
    ) {
        mem_rename(st, from, to)
    }

    open spec fn remove_file_spec(st: Seq<MemNodeView>, path: Seq<u8>) -> (
        Result<(), FsError>,
        Seq<MemNodeView>,
    ) {
        mem_remove_file(st, path)
    }

    open spec fn open_spec(st: Seq<MemNodeView>, path: Seq<u8>, conf: OpenOptionsConfig) -> (
        Result<VirtualFileView, FsError>,
        Seq<MemNodeView>,
    ) {
        mem_open(st, path, conf)
    }

    fn read_dir(&self, path: &[u8]) -> (r: Result<Vec<DirEntry>, FsError>) {
        let key = key_for(path);
        if key.len() > 0 {
            match self.find_index(&key) {
                None => {
                    return Err(FsError::EntryNotFound);
                },
                Some(i) => {
                    if !matches!(self.nodes[i].kind, MemKind::Dir) {
                        return Err(FsError::BaseNotDirectory);
                    }
                },
            }
        }
        let mut out: Vec<DirEntry> = Vec::new();
        let mut i: usize = 0;
        assert(listing_of(out@) =~= children_upto(self@, names_of(key@), 0));
        while i < self.nodes.len()
            invariant
                0 <= i <= self.nodes.len(),
                self.nodes_view().len() == self.nodes.len(),
                listing_of(out@) == children_upto(self.nodes_view(), names_of(key@), i as int),
            decreases self.nodes.len() - i,
        {
            let ghost before = listing_of(out@);
            if is_child_key(&self.nodes[i].key, &key) {
                let entry = DirEntry {
                    path: path_for(&self.nodes[i].key),
                    metadata: self.meta_at(i),
                };
                out.push(entry);
                assert(listing_of(out@) =~= before.push(
                    DirEntryView {
                        path: path_of_key(self.nodes_view()[i as int].key),
                        metadata: node_meta(self.nodes_view()[i as int]),
                    },
                ));
            }
            i += 1;
        }
        Ok(out)
    }

    fn create_dir(&mut self, path: &[u8]) -> (r: Result<(), FsError>) {
        let key = key_for(path);
        if key.len() == 0 {
            return Err(FsError::AlreadyExists);
        }
        if self.find_index(&key).is_some() {
            return Err(FsError::AlreadyExists);
        }
        if let Some(e) = self.parent_check(&key) {
            return Err(e);
        }
        let ghost before = self@;
        let node = MemNode { key, kind: MemKind::Dir, data: Vec::new() };
        let ghost nv = node@;
        self.nodes.push(node);
        proof {
            assert(self@ =~= before.push(nv));
            assert(nv.data =~= Seq::<u8>::empty());
            lemma_push_ok(before, nv);
        }
        Ok(())
    }

    fn remove_dir(&mut self, path: &[u8]) -> (r: Result<(), FsError>) {
        let key = key_for(path);
        if key.len() == 0 {
            return Err(FsError::PermissionDenied);
        }
        proof {
            lemma_find(self@, names_of(key@), 0);
        }
        match self.find_index(&key) {
            None => Err(FsError::EntryNotFound),
            Some(i) => {
                if !matches!(self.nodes[i].kind, MemKind::Dir) {
                    return Err(FsError::BaseNotDirectory);
                }
                if self.any_child(&key) {
                    return Err(FsError::DirectoryNotEmpty);
                }
                let ghost before = self@;
                self.nodes.remove(i);
                proof {
                    assert(self@ =~= before.remove(i as int));
                    lemma_remove_ok(before, i as int);
                }
                Ok(())
            },
        }
    }

    fn rename(&mut self, from: &[u8], to: &[u8]) -> (r: Result<(), FsError>) {
        let kf = key_for(from);
        let kt = key_for(to);
        if kf.len() == 0 {
            return Err(FsError::PermissionDenied);
        }
        proof {
            lemma_find(self@, names_of(kf@), 0);
        }
        match self.find_index(&kf) {
            None => Err(FsError::EntryNotFound),
            Some(i) => {
                if kt.len() == 0 || self.find_index(&kt).is_some() || self.any_child(&kf)
                    || is_child_key(&kt, &kf) {
                    return Err(FsError::PermissionDenied);
                }
                if let Some(e) = self.parent_check(&kt) {
                    return Err(e);
                }
                let ghost before = self@;
                let ghost ktv = names_of(kt@);
                let mut taken: Vec<Vec<u8>> = kt;
                let slot = &mut self.nodes[i];
                slot.key = taken;
                proof {
                    assert(self@ =~= before.update(
                        i as int,
                        MemNodeView { key: ktv, ..before[i as int] },
                    ));
                    lemma_rekey_ok(before, i as int, ktv);
                }
                Ok(())
            },
        }
    }

    fn metadata(&self, path: &[u8]) -> (r: Result<Metadata, FsError>) {
        let mut key = key_for(path);
        let mut fuel: u32 = MAX_LINK_HOPS;
        loop
            invariant
                fuel <= MAX_LINK_HOPS,
                follow(self@, key_of(path@), MAX_LINK_HOPS as nat) == follow(
                    self@,
                    names_of(key@),
                    fuel as nat,
                ),
            decreases fuel,
        {
            if key.len() == 0 {
                return Ok(Metadata { ft: FileType::Dir, accessed: 0, created: 0, modified: 0, len: 0 });
            }
            match self.find_index(&key) {
                None => {
                    return Err(FsError::EntryNotFound);
                },
                Some(i) => {
                    if !matches!(self.nodes[i].kind, MemKind::Link) {
                        return Ok(self.meta_at(i));
                    }
                    if fuel == 0 {
                        return Err(FsError::EntryNotFound);
                    }
                    let up = copy_key(&key, key.len() - 1);
                    assert(names_of(key@).subrange(0, key.len() - 1) =~= names_of(key@).drop_last());
                    key = apply_path(up, self.nodes[i].data.as_slice());
                    fuel = fuel - 1;
                },
            }
        }
    }

    fn symlink_metadata(&self, path: &[u8]) -> (r: Result<Metadata, FsError>) {
        let key = key_for(path);
        if key.len() == 0 {
            return Ok(Metadata { ft: FileType::Dir, accessed: 0, created: 0, modified: 0, len: 0 });
        }
        match self.find_index(&key) {
            None => Err(FsError::EntryNotFound),
            Some(i) => Ok(self.meta_at(i)),
        }
    }

    fn read_link(&self, path: &[u8]) -> (r: Result<Vec<u8>, FsError>) {
        let key = key_for(path);
        if key.len() == 0 {
            return Err(FsError::InvalidInput);
        }
        match self.find_index(&key) {
            None => Err(FsError::EntryNotFound),
            Some(i) => {
                if matches!(self.nodes[i].kind, MemKind::Link) {
                    Ok(slice_to_vec(self.nodes[i].data.as_slice()))
                } else {
                    Err(FsError::InvalidInput)
                }
            },
        }
    }

    fn remove_file(&mut self, path: &[u8]) -> (r: Result<(), FsError>) {
        let key = key_for(path);
        if key.len() == 0 {
            return Err(FsError::NotAFile);
        }
        proof {
            lemma_find(self@, names_of(key@), 0);
        }
        match self.find_index(&key) {
            None => Err(FsError::EntryNotFound),
            Some(i) => {
                if matches!(self.nodes[i].kind, MemKind::Dir) {
                    return Err(FsError::NotAFile);
                }
                let ghost before = self@;
                proof {
                    lemma_no_child_of_leaf(before, i as int);
                }
                self.nodes.remove(i);
                proof {
                    assert(self@ =~= before.remove(i as int));
                    lemma_remove_ok(before, i as int);
                }
                Ok(())
            },
        }
    }

    fn open(&mut self, path: &[u8], conf: &OpenOptionsConfig) -> (r: Result<VirtualFile, FsError>) {
        let key = key_for(path);
        if key.len() == 0 {
            return Err(FsError::NotAFile);
        }
        proof {
            lemma_find(self@, names_of(key@), 0);
        }
        match self.find_index(&key) {
            Some(i) => {
                if !matches!(self.nodes[i].kind, MemKind::File) {
                    return Err(FsError::NotAFile);
                }
                if conf.create_new {
                    return Err(FsError::AlreadyExists);
                }
                let ghost before = self@;
                if conf.truncate && conf.write {
                    let slot = &mut self.nodes[i];
                    slot.data = Vec::new();
                }
                let data = slice_to_vec(self.nodes[i].data.as_slice());
                let cursor = if conf.append {
                    data.len()
                } else {
                    0
                };
                proof {
                    let d = opened_data(before[i as int].data, *conf);
                    assert(data@ =~= d);
                    assert(self@ =~= before.update(i as int, MemNodeView { data: d, ..before[i as int] }));
                    lemma_update_data_ok(before, i as int, d);
                }
                Ok(VirtualFile { data, cursor, accessed: 0, modified: 0, created: 0 })
            },
            None => {
                if !(conf.create || conf.create_new) {
                    return Err(FsError::EntryNotFound);
                }
                if let Some(e) = self.parent_check(&key) {
                    return Err(e);
                }
                let ghost before = self@;
                let node = MemNode { key, kind: MemKind::File, data: Vec::new() };
                let ghost nv = node@;
                self.nodes.push(node);
                proof {
                    assert(self@ =~= before.push(nv));
                    assert(nv.data =~= Seq::<u8>::empty());
                    lemma_push_ok(before, nv);
                }
                let data: Vec<u8> = Vec::new();
                assert(data@ =~= Seq::<u8>::empty());
                Ok(VirtualFile { data, cursor: 0, accessed: 0, modified: 0, created: 0 })
            },
        }
    }
}

/// Nothing lies under an entry that is not a directory.
pub proof fn lemma_no_child_of_leaf(st: Seq<MemNodeView>, i: int)
    requires
        state_ok(st),
        0 <= i < st.len(),
        st[i].kind != MemKind::Dir,
    ensures
        !has_child(st, st[i].key),
{
    assert forall|a: int| 0 <= a < st.len() implies !is_child(#[trigger] st[a], st[i].key) by {
        if is_child(st[a], st[i].key) {
            lemma_find(st, st[i].key, 0);
            assert(has_dir(st, st[a].key.drop_last()));
        }
    }
}


/// The round trip of a directory: after a directory was made, the path
/// leads to a directory; the directory can be removed; and after that
/// nothing is at the path.
pub proof fn law_create_remove_dir(st: Seq<MemNodeView>, path: Seq<u8>)
    requires
        state_ok(st),
        mem_create_dir(st, path).0.is_ok(),
    ensures
        ({
            let made = mem_create_dir(st, path).1;
            let gone = mem_remove_dir(made, path);
            &&& state_ok(made)
            &&& MemFileSystem::metadata_spec(made, path).is_ok()
            &&& MemFileSystem::metadata_spec(made, path).unwrap().ft == FileType::Dir
            &&& gone.0.is_ok()
            &&& state_ok(gone.1)
            &&& MemFileSystem::metadata_spec(gone.1, path) == Err::<Metadata, FsError>(
                FsError::EntryNotFound,
            )
            &&& gone.1 == st
        }),
{
    let key = key_of(path);
    let node = MemNodeView { key, kind: MemKind::Dir, data: Seq::empty() };
    let made = st.push(node);
    lemma_find(st, key, 0);
    lemma_push_ok(st, node);
    let idx = st.len() as int;
    assert(made[idx] == node);
    assert(!has_child(made, key)) by {
        assert forall|a: int| 0 <= a < made.len() implies !is_child(#[trigger] made[a], key) by {
            if a < st.len() {
                assert(made[a] == st[a]);
                if is_child(st[a], key) {
                    assert(has_dir(st, st[a].key.drop_last()));
                }
            }
        }
    }
    lemma_remove_ok(made, idx);
    assert(made.remove(idx) =~= st);
}

/// The same round trip on an overlay whose primary keeps its entries in
/// memory, for a path that no secondary has: making the directory on the
/// overlay makes it on the primary, the overlay then has a directory
/// there, removes it, and has nothing there afterwards.
pub proof fn law_overlay_create_remove_dir<S: FileSystem>(
    st: crate::overlay_fs::OverlayView<Seq<MemNodeView>, S::V>,
    path: Seq<u8>,
)
    requires
        state_ok(st.primary),
        crate::overlay_fs::first_metadata::<S>(st.secondaries, path, 0) == Err::<Metadata, FsError>(
            FsError::EntryNotFound,
        ),
        crate::overlay_fs::OverlayFileSystem::<MemFileSystem, S>::create_dir_spec(st, path).0.is_ok(),
    ensures
        ({
            let made = crate::overlay_fs::OverlayFileSystem::<MemFileSystem, S>::create_dir_spec(
                st,
                path,
            ).1;
            let gone = crate::overlay_fs::OverlayFileSystem::<MemFileSystem, S>::remove_dir_spec(
                made,
                path,
            );
            &&& crate::overlay_fs::overlay_metadata::<MemFileSystem, S>(made, path).is_ok()
            &&& crate::overlay_fs::overlay_metadata::<MemFileSystem, S>(made, path).unwrap().ft
                == FileType::Dir
            &&& gone.0.is_ok()
            &&& crate::overlay_fs::overlay_metadata::<MemFileSystem, S>(gone.1, path) == Err::<
                Metadata,
                FsError,
            >(FsError::EntryNotFound)
        }),
{
    law_create_remove_dir(st.primary, path);
}

} // verus!
