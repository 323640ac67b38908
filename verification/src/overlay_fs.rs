//! One writable store laid over a chain of read-only stores.
//!
//! An entry of an earlier store hides the entries of the same path in later
//! ones, and the primary hides them all. Changes go to the primary alone.
use crate::errors::FsError;
use crate::path::components;
use crate::path::components_of;
use crate::path::names_of;
use crate::path::parent;
use crate::path::parent_of;
use crate::vfs::create_dir_all;
use crate::vfs::create_dir_all_spec;
use crate::vfs::exists_in;
use crate::vfs::is_dir;
use crate::vfs::is_dir_in;
use crate::vfs::is_file;
use crate::vfs::is_file_in;
use crate::vfs::listing_of;
use crate::vfs::path_exists;
use crate::vfs::DirEntry;
use crate::vfs::DirEntryView;
use crate::vfs::FileSystem;
use crate::vfs::Metadata;
use crate::vfs::OpenOptionsConfig;
use crate::vfs::VirtualFile;
use crate::vfs::VirtualFileView;
use vstd::prelude::*;

verus! {

/// A primary store and a chain of secondary stores laid under it.
#[derive(Debug)]
pub struct OverlayFileSystem<P, S> {
    primary: P,
    secondaries: Vec<S>,
}

/// The model of an overlay: the model of the primary and those of the
/// secondaries, in their order.
pub struct OverlayView<A, B> {
    pub primary: A,
    pub secondaries: Seq<B>,
}

/// Whether one name comes before another, byte by byte from `i` on.
pub open spec fn name_before_from(a: Seq<u8>, b: Seq<u8>, i: int) -> bool
    decreases a.len() - i,
{
    if i < 0 || i >= b.len() {
        false
    } else if i >= a.len() {
        true
    } else if a[i] != b[i] {
        a[i] < b[i]
    } else {
        name_before_from(a, b, i + 1)
    }
}

/// Whether one list of names comes before another, name by name from `i` on.
pub open spec fn names_before_from(a: Seq<Seq<u8>>, b: Seq<Seq<u8>>, i: int) -> bool
    decreases a.len() - i,
{
    if i < 0 || i >= b.len() {
        false
    } else if i >= a.len() {
        true
    } else if a[i] != b[i] {
        name_before_from(a[i], b[i], 0)
    } else {
        names_before_from(a, b, i + 1)
    }
}

/// Whether one path sorts before another: by components, each byte by byte.
pub open spec fn path_before(a: Seq<u8>, b: Seq<u8>) -> bool {
    names_before_from(components_of(a), components_of(b), 0)
}

/// Whether two paths name the same entry: their components are the same.
pub open spec fn same_path(a: Seq<u8>, b: Seq<u8>) -> bool {
    components_of(a) == components_of(b)
}

/// The first place from `i` on whose path does not sort before `path`.
pub open spec fn insert_pos(s: Seq<DirEntryView>, path: Seq<u8>, i: int) -> int
    decreases s.len() - i,
{
    if i < 0 || i >= s.len() {
        i
    } else if path_before(s[i].path, path) {
        insert_pos(s, path, i + 1)
    } else {
        i
    }
}

/// A sorted listing with one more entry: put at its place, or left out when
/// the listing already has an entry of the same path.
pub open spec fn insert_listing(s: Seq<DirEntryView>, e: DirEntryView) -> Seq<DirEntryView> {
    let pos = insert_pos(s, e.path, 0);
    if 0 <= pos < s.len() && same_path(s[pos].path, e.path) {
        s
    } else if 0 <= pos <= s.len() {
        s.insert(pos, e)
    } else {
        s
    }
}

/// The first `n` entries of `all` merged: sorted by path, and of the entries
/// with the same path the earliest.
pub open spec fn merge_upto(all: Seq<DirEntryView>, n: int) -> Seq<DirEntryView>
    decreases n,
{
    if n <= 0 {
        Seq::empty()
    } else {
        insert_listing(merge_upto(all, n - 1), all[n - 1])
    }
}

/// Whether any of the stores has something at the path.
pub open spec fn any_exists<S: FileSystem>(secs: Seq<S::V>, path: Seq<u8>) -> bool {
    exists|i: int| 0 <= i < secs.len() && exists_in::<S>(#[trigger] secs[i], path)
}

/// Whether any of the stores has a directory at the path.
pub open spec fn any_is_dir<S: FileSystem>(secs: Seq<S::V>, path: Seq<u8>) -> bool {
    exists|i: int| 0 <= i < secs.len() && is_dir_in::<S>(#[trigger] secs[i], path)
}

/// Whether any of the stores has a regular file at the path.
pub open spec fn any_is_file<S: FileSystem>(secs: Seq<S::V>, path: Seq<u8>) -> bool {
    exists|i: int| 0 <= i < secs.len() && is_file_in::<S>(#[trigger] secs[i], path)
}

/// What a change answers that the primary knows nothing of: it is refused
/// where a secondary has the path, and finds nothing elsewhere.
pub open spec fn refusal<S: FileSystem>(secs: Seq<S::V>, path: Seq<u8>) -> FsError {
    if any_exists::<S>(secs, path) {
        FsError::PermissionDenied
    } else {
        FsError::EntryNotFound
    }
}

/// What a change answers, given what the primary answered.
pub open spec fn change_result<S: FileSystem>(
    primary: Result<(), FsError>,
    secs: Seq<S::V>,
    path: Seq<u8>,
) -> Result<(), FsError> {
    match primary {
        Err(FsError::EntryNotFound) => Err(refusal::<S>(secs, path)),
        other => other,
    }
}

/// The metadata that the first store from `i` on has for the path.
pub open spec fn first_metadata<S: FileSystem>(secs: Seq<S::V>, path: Seq<u8>, i: int) -> Result<
    Metadata,
    FsError,
>
    decreases secs.len() - i,
{
    if i < 0 || i >= secs.len() {
        Err(FsError::EntryNotFound)
    } else {
        match S::metadata_spec(secs[i], path) {
            Err(FsError::EntryNotFound) => first_metadata::<S>(secs, path, i + 1),
            other => other,
        }
    }
}

/// The link target that the first store from `i` on has for the path.
pub open spec fn first_link<S: FileSystem>(secs: Seq<S::V>, path: Seq<u8>, i: int) -> Result<
    Seq<u8>,
    FsError,
>
    decreases secs.len() - i,
{
    if i < 0 || i >= secs.len() {
        Err(FsError::EntryNotFound)
    } else {
        match S::read_link_spec(secs[i], path) {
            Err(FsError::EntryNotFound) => first_link::<S>(secs, path, i + 1),
            other => other,
        }
    }
}

/// The metadata an overlay has for a path.
pub open spec fn overlay_metadata<P: FileSystem, S: FileSystem>(
    st: OverlayView<P::V, S::V>,
    path: Seq<u8>,
) -> Result<Metadata, FsError> {
    match P::metadata_spec(st.primary, path) {
        Err(FsError::EntryNotFound) => first_metadata::<S>(st.secondaries, path, 0),
        other => other,
    }
}

/// What the stores from `i` on add to a listing: all the entries of those
/// that have the directory, whether any had it, or the first failure other
/// than `EntryNotFound`.
pub open spec fn gather<S: FileSystem>(
    secs: Seq<S::V>,
    path: Seq<u8>,
    i: int,
    acc: Seq<DirEntryView>,
    found: bool,
) -> Result<(Seq<DirEntryView>, bool), FsError>
    decreases secs.len() - i,
{
    if i < 0 || i >= secs.len() {
        Ok((acc, found))
    } else {
        match S::read_dir_spec(secs[i], path) {
            Ok(l) => gather::<S>(secs, path, i + 1, acc + l, true),
            Err(FsError::EntryNotFound) => gather::<S>(secs, path, i + 1, acc, found),
            Err(e) => Err(e),
        }
    }
}

/// The listing an overlay gives for a path.
pub open spec fn overlay_read_dir<P: FileSystem, S: FileSystem>(
    st: OverlayView<P::V, S::V>,
    path: Seq<u8>,
) -> Result<Seq<DirEntryView>, FsError> {
    let first = match P::read_dir_spec(st.primary, path) {
        Ok(l) => Ok((l, true)),
        Err(FsError::EntryNotFound) => Ok((Seq::empty(), false)),
        Err(e) => Err(e),
    };
    match first {
        Err(e) => Err(e),
        Ok(start) => match gather::<S>(st.secondaries, path, 0, start.0, start.1) {
            Err(e) => Err(e),
            Ok(all) => if all.1 {
                Ok(merge_upto(all.0, all.0.len() as int))
            } else {
                Err(FsError::BaseNotDirectory)
            },
        },
    }
}

/// Whether opening with these options would have to write to a secondary.
pub open spec fn would_require_mutations<S: FileSystem>(
    secs: Seq<S::V>,
    path: Seq<u8>,
    conf: OpenOptionsConfig,
) -> bool {
    conf.would_mutate() || (conf.create && !any_is_file::<S>(secs, path))
}

/// The outcome of opening on the stores from `i` on: the first answer other
/// than `EntryNotFound`.
pub open spec fn open_first<S: FileSystem>(
    secs: Seq<S::V>,
    path: Seq<u8>,
    conf: OpenOptionsConfig,
    i: int,
) -> (Result<VirtualFileView, FsError>, Seq<S::V>)
    decreases secs.len() - i,
{
    if i < 0 || i >= secs.len() {
        (Err(FsError::EntryNotFound), secs)
    } else {
        let step = S::open_spec(secs[i], path, conf);
        let after = secs.update(i, step.1);
        match step.0 {
            Err(FsError::EntryNotFound) => open_first::<S>(after, path, conf, i + 1),
            other => (other, after),
        }
    }
}

/// The outcome of opening a file on an overlay.
pub open spec fn overlay_open<P: FileSystem, S: FileSystem>(
    st: OverlayView<P::V, S::V>,
    path: Seq<u8>,
    conf: OpenOptionsConfig,
) -> (Result<VirtualFileView, FsError>, OverlayView<P::V, S::V>) {
    let first = P::open_spec(st.primary, path, conf);
    let st1 = OverlayView { primary: first.1, secondaries: st.secondaries };
    if first.0 != Err::<VirtualFileView, FsError>(FsError::EntryNotFound) {
        (first.0, st1)
    } else if conf.would_create() && !overlay_metadata::<P, S>(st1, path).is_ok() && parent_of(
        path,
    ).is_some() {
        let up = parent_of(path).unwrap();
        if any_is_dir::<S>(st.secondaries, up) {
            let made = create_dir_all_spec::<P>(first.1, up);
            match made.0 {
                Err(e) => (Err(e), OverlayView { primary: made.1, secondaries: st.secondaries }),
                Ok(_) => {
                    let again = P::open_spec(made.1, path, conf);
                    (again.0, OverlayView { primary: again.1, secondaries: st.secondaries })
                },
            }
        } else {
            (Err(FsError::EntryNotFound), st1)
        }
    } else if would_require_mutations::<S>(st.secondaries, path, conf) {
        (Err(FsError::PermissionDenied), st1)
    } else {
        let rest = open_first::<S>(st.secondaries, path, conf, 0);
        (rest.0, OverlayView { primary: first.1, secondaries: rest.1 })
    }
}

/// Whether one name comes before another.
fn name_before(a: &[u8], b: &[u8]) -> (r: bool)
    ensures
        r == name_before_from(a@, b@, 0),
{
    let mut i: usize = 0;
    loop
        invariant
            0 <= i <= a.len(),
            name_before_from(a@, b@, 0) == name_before_from(a@, b@, i as int),
        decreases a.len() - i,
    {
        if i >= b.len() {
            return false;
        }
        if i >= a.len() {
            return true;
        }
        if a[i] != b[i] {
            return a[i] < b[i];
        }
        i += 1;
    }
}

/// Whether one list of names comes before another.
fn names_before(a: &Vec<Vec<u8>>, b: &Vec<Vec<u8>>) -> (r: bool)
    ensures
        r == names_before_from(names_of(a@), names_of(b@), 0),
{
    let mut i: usize = 0;
    loop
        invariant
            0 <= i <= a.len(),
            names_of(a@).len() == a.len(),
            names_of(b@).len() == b.len(),
            names_before_from(names_of(a@), names_of(b@), 0) == names_before_from(
                names_of(a@),
                names_of(b@),
                i as int,
            ),
        decreases a.len() - i,
    {
        if i >= b.len() {
            return false;
        }
        if i >= a.len() {
            return true;
        }
        if !crate::path::bytes_eq(a[i].as_slice(), b[i].as_slice()) {
            return name_before(a[i].as_slice(), b[i].as_slice());
        }
        i += 1;
    }
}

/// Whether two lists of names are the same.
fn names_same(a: &Vec<Vec<u8>>, b: &Vec<Vec<u8>>) -> (r: bool)
    ensures
        r == (names_of(a@) == names_of(b@)),
{
    if a.len() != b.len() {
        assert(names_of(a@).len() != names_of(b@).len());
        return false;
    }
    let mut i: usize = 0;
    while i < a.len()
        invariant
            a.len() == b.len(),
            0 <= i <= a.len(),
            forall|k: int| 0 <= k < i ==> a@[k]@ == b@[k]@,
        decreases a.len() - i,
    {
        if !crate::path::bytes_eq(a[i].as_slice(), b[i].as_slice()) {
            assert(names_of(a@)[i as int] != names_of(b@)[i as int]);
            return false;
        }
        i += 1;
    }
    assert(names_of(a@) =~= names_of(b@));
    true
}

/// Puts an entry at its place in a sorted listing, unless an entry of the
/// same path is there.
fn insert_entry(list: &mut Vec<DirEntry>, e: DirEntry)
    ensures
        listing_of(final(list)@) == insert_listing(listing_of(old(list)@), e@),
{
    let key = components(e.path.as_slice());
    let ghost s = listing_of(list@);
    let mut i: usize = 0;
    let mut scanning = true;
    let mut same = false;
    while scanning && i < list.len()
        invariant
            0 <= i <= list.len(),
            list@ == old(list)@,
            s == listing_of(list@),
            names_of(key@) == components_of(e@.path),
            insert_pos(s, e@.path, 0) == insert_pos(s, e@.path, i as int),
            scanning ==> !same,
            !scanning ==> i < list.len() && !path_before(s[i as int].path, e@.path) && same
                == same_path(s[i as int].path, e@.path),
        decreases list.len() - i + (if scanning { 1int } else { 0int }),
    {
        let here = components(list[i].path.as_slice());
        assert(s[i as int].path == list@[i as int].path@);
        if names_before(&here, &key) {
            i += 1;
        } else {
            same = names_same(&here, &key);
            scanning = false;
        }
    }
    if same {
        return ;
    }
    let ghost ev = e@;
    list.insert(i, e);
    assert(listing_of(list@) =~= s.insert(i as int, ev));
}

/// The merge of a prefix does not depend on what follows the prefix.
proof fn lemma_merge_prefix(a: Seq<DirEntryView>, b: Seq<DirEntryView>, n: int)
    requires
        0 <= n <= a.len(),
    ensures
        merge_upto(a + b, n) == merge_upto(a, n),
    decreases n,
{
    if n > 0 {
        lemma_merge_prefix(a, b, n - 1);
        assert((a + b)[n - 1] == a[n - 1]);
    }
}

impl<P: FileSystem, S: FileSystem> OverlayFileSystem<P, S> {
    /// An overlay of a primary store over a chain of secondary stores.
    pub fn new(primary: P, secondaries: Vec<S>) -> (r: Self)
        ensures
            r@.primary == primary@,
            r@.secondaries == Seq::new(secondaries@.len(), |i: int| secondaries@[i]@),
            r.spec_primary() == primary,
            r.spec_secondaries() == secondaries,
            r.inv() <==> primary.inv() && forall|i: int|
                0 <= i < secondaries@.len() ==> (#[trigger] secondaries@[i]).inv(),
    {
        OverlayFileSystem { primary, secondaries }
    }

    pub closed spec fn spec_primary(&self) -> P {
        self.primary
    }

    /// An overlay keeps what each of its stores keeps, and its model is
    /// made of their models.
    pub proof fn lemma_parts(&self)
        ensures
            self.inv() == (self.spec_primary().inv() && forall|i: int|
                0 <= i < self.spec_secondaries()@.len() ==> (#[trigger] self.spec_secondaries()@[i]).inv()),
            self@.primary == self.spec_primary()@,
            self@.secondaries == Seq::new(
                self.spec_secondaries()@.len(),
                |i: int| self.spec_secondaries()@[i]@,
            ),
    {
        let secs = self.spec_secondaries();
        assert(secs == self.secondaries);
        if self.inv() {
            assert forall|i: int| 0 <= i < secs@.len() implies (#[trigger] secs@[i]).inv() by {
                assert(self.secondaries@[i].inv());
            }
        }
        if self.spec_primary().inv() && forall|i: int|
            0 <= i < self.spec_secondaries()@.len() ==> (#[trigger] self.spec_secondaries()@[i]).inv() {
            assert forall|i: int| 0 <= i < self.secondaries@.len() implies (#[trigger] self.secondaries@[i]).inv() by {
                assert(secs@[i].inv());
            }
        }
    }

    pub closed spec fn spec_secondaries(&self) -> Vec<S> {
        self.secondaries
    }

    /// The primary store.
    pub fn primary(&self) -> (r: &P)
        ensures
            *r == self.spec_primary(),
            r@ == self@.primary,
            self.inv() ==> r.inv(),
    {
        &self.primary
    }

    /// The primary store, to change it.
    pub fn primary_mut(&mut self) -> (r: &mut P)
        ensures
            *r == old(self).spec_primary(),
            final(self).spec_primary() == *final(r),
            final(self).spec_secondaries() == old(self).spec_secondaries(),
            old(self).inv() ==> r.inv(),
            old(self).inv() && final(r).inv() ==> final(self).inv(),
            final(self)@.primary == final(r)@,
            final(self)@.secondaries == old(self)@.secondaries,
    {
        &mut self.primary
    }

    /// The secondary stores, the first of them the uppermost.
    pub fn secondaries(&self) -> (r: &Vec<S>)
        ensures
            *r == self.spec_secondaries(),
            r@.len() == self@.secondaries.len(),
            forall|i: int| 0 <= i < r@.len() ==> (#[trigger] r@[i])@ == self@.secondaries[i],
            self.inv() ==> forall|i: int| 0 <= i < r@.len() ==> (#[trigger] r@[i]).inv(),
    {
        &self.secondaries
    }

    /// The secondary stores, to change them.
    pub fn secondaries_mut(&mut self) -> (r: &mut Vec<S>)
        ensures
            *r == old(self).spec_secondaries(),
            final(self).spec_secondaries() == *final(r),
            final(self).spec_primary() == old(self).spec_primary(),
            final(self)@.primary == old(self)@.primary,
    {
        &mut self.secondaries
    }

    /// Takes the overlay apart into its primary and its secondaries.
    pub fn into_inner(self) -> (r: (P, Vec<S>))
        ensures
            r.0 == self.spec_primary(),
            r.1 == self.spec_secondaries(),
    {
        (self.primary, self.secondaries)
    }

    /// Lays one more store under the others, as the last of the
    /// secondaries.
    pub fn push_secondary(&mut self, fs: S)
        requires
            old(self).inv(),
            fs.inv(),
        ensures
            final(self).inv(),
            final(self)@.primary == old(self)@.primary,
            final(self)@.secondaries == old(self)@.secondaries.push(fs@),
    {
        self.secondaries.push(fs);
        assert(self@.secondaries =~= old(self)@.secondaries.push(fs@));
    }

    /// The options to open a file with, nothing asked for yet.
    pub fn new_open_options(&self) -> (r: OpenOptionsConfig)
        ensures
            r == (OpenOptionsConfig {
                read: false,
                write: false,
                create_new: false,
                create: false,
                append: false,
                truncate: false,
            }),
    {
        OpenOptionsConfig::new()
    }

    /// The models of the secondaries.
    pub closed spec fn secondaries_view(&self) -> Seq<S::V> {
        Seq::new(self.secondaries@.len(), |i: int| self.secondaries@[i]@)
    }

    /// What a change answers that the primary knows nothing of.
    pub fn permission_error_or_not_found(&self, path: &[u8]) -> (r: Result<(), FsError>)
        requires
            self.inv(),
        ensures
            r == Err::<(), FsError>(refusal::<S>(self@.secondaries, path@)),
    {
        let mut i: usize = 0;
        while i < self.secondaries.len()
            invariant
                self.inv(),
                0 <= i <= self.secondaries.len(),
                forall|j: int| 0 <= j < i ==> !exists_in::<S>(#[trigger] self@.secondaries[j], path@),
            decreases self.secondaries.len() - i,
        {
            if path_exists(&self.secondaries[i], path) {
                assert(exists_in::<S>(self@.secondaries[i as int], path@));
                return Err(FsError::PermissionDenied);
            }
            i += 1;
        }
        Err(FsError::EntryNotFound)
    }

    fn any_secondary_is_dir(&self, path: &[u8]) -> (r: bool)
        requires
            self.inv(),
        ensures
            r == any_is_dir::<S>(self@.secondaries, path@),
    {
        let mut i: usize = 0;
        while i < self.secondaries.len()
            invariant
                self.inv(),
                0 <= i <= self.secondaries.len(),
                forall|j: int| 0 <= j < i ==> !is_dir_in::<S>(#[trigger] self@.secondaries[j], path@),
            decreases self.secondaries.len() - i,
        {
            if is_dir(&self.secondaries[i], path) {
                assert(is_dir_in::<S>(self@.secondaries[i as int], path@));
                return true;
            }
            i += 1;
        }
        false
    }
}

/// Whether opening with these options would have to write to one of the
/// stores: it asks to append, write, create anew or truncate, or to create a
/// file that none of them has.
#[verifier::loop_isolation(false)]
pub fn opening_would_require_mutations<S: FileSystem>(
    secondaries: &Vec<S>,
    path: &[u8],
    conf: &OpenOptionsConfig,
) -> (r: bool)
    requires
        forall|i: int| 0 <= i < secondaries@.len() ==> (#[trigger] secondaries@[i]).inv(),
    ensures
        r == would_require_mutations::<S>(
            Seq::new(secondaries@.len(), |i: int| secondaries@[i]@),
            path@,
            *conf,
        ),
{
    if conf.append || conf.write || conf.create_new || conf.truncate {
        return true;
    }
    if conf.create {
        let ghost secs = Seq::new(secondaries@.len(), |i: int| secondaries@[i]@);
        let mut i: usize = 0;
        while i < secondaries.len()
            invariant
                0 <= i <= secondaries.len(),
                secs == Seq::new(secondaries@.len(), |i: int| secondaries@[i]@),
                forall|i: int| 0 <= i < secondaries@.len() ==> (#[trigger] secondaries@[i]).inv(),
                forall|j: int| 0 <= j < i ==> !is_file_in::<S>(#[trigger] secs[j], path@),
            decreases secondaries.len() - i,
        {
            if is_file(&secondaries[i], path) {
                assert(is_file_in::<S>(secs[i as int], path@));
                return false;
            }
            i += 1;
        }
        return true;
    }
    false
}

impl<P: FileSystem, S: FileSystem> FileSystem for OverlayFileSystem<P, S> {
    type V = OverlayView<P::V, S::V>;

    closed spec fn view(&self) -> OverlayView<P::V, S::V> {
        OverlayView { primary: self.primary@, secondaries: self.secondaries_view() }
    }

    closed spec fn inv(&self) -> bool {
        &&& self.primary.inv()
        &&& forall|i: int| 0 <= i < self.secondaries@.len() ==> (#[trigger] self.secondaries@[i]).inv()
    }

    proof fn law_made_dir_is_dir(&self, path: Seq<u8>) {
        self.primary.law_made_dir_is_dir(path);
    }

    proof fn law_dir_round_trip(&self, path: Seq<u8>) {
        self.primary.law_dir_round_trip(path);
    }

    open spec fn read_dir_spec(st: OverlayView<P::V, S::V>, path: Seq<u8>) -> Result<
        Seq<DirEntryView>,
        FsError,
    > {
        overlay_read_dir::<P, S>(st, path)
    }

    open spec fn metadata_spec(st: OverlayView<P::V, S::V>, path: Seq<u8>) -> Result<
        Metadata,
        FsError,
    > {
        overlay_metadata::<P, S>(st, path)
    }

    open spec fn symlink_metadata_spec(st: OverlayView<P::V, S::V>, path: Seq<u8>) -> Result<
        Metadata,
        FsError,
    > {
        overlay_metadata::<P, S>(st, path)
    }

    open spec fn read_link_spec(st: OverlayView<P::V, S::V>, path: Seq<u8>) -> Result<
        Seq<u8>,
        FsError,
    > {
        match P::read_link_spec(st.primary, path) {
            Err(FsError::EntryNotFound) => first_link::<S>(st.secondaries, path, 0),
            other => other,
        }
    }

    open spec fn create_dir_spec(st: OverlayView<P::V, S::V>, path: Seq<u8>) -> (
        Result<(), FsError>,
        OverlayView<P::V, S::V>,
    ) {
        let first = P::create_dir_spec(st.primary, path);
        (
            change_result::<S>(first.0, st.secondaries, path),
            OverlayView { primary: first.1, secondaries: st.secondaries },
        )
    }

    open spec fn remove_dir_spec(st: OverlayView<P::V, S::V>, path: Seq<u8>) -> (
        Result<(), FsError>,
        OverlayView<P::V, S::V>,
    ) {
        let first = P::remove_dir_spec(st.primary, path);
        (
            change_result::<S>(first.0, st.secondaries, path),
            OverlayView { primary: first.1, secondaries: st.secondaries },
        )
    }

    open spec fn rename_spec(st: OverlayView<P::V, S::V>, from: Seq<u8>, to: Seq<u8>) -> (
        Result<(), FsError>,
        OverlayView<P::V, S::V>,
    ) {
        let first = P::rename_spec(st.primary, from, to);
        (
            change_result::<S>(first.0, st.secondaries, from),
            OverlayView { primary: first.1, secondaries: st.secondaries },
        )
    }

    open spec fn remove_file_spec(st: OverlayView<P::V, S::V>, path: Seq<u8>) -> (
        Result<(), FsError>,
        OverlayView<P::V, S::V>,
    ) {
        let first = P::remove_file_spec(st.primary, path);
        (
            change_result::<S>(first.0, st.secondaries, path),
            OverlayView { primary: first.1, secondaries: st.secondaries },
        )
    }

    open spec fn open_spec(st: OverlayView<P::V, S::V>, path: Seq<u8>, conf: OpenOptionsConfig) -> (
        Result<VirtualFileView, FsError>,
        OverlayView<P::V, S::V>,
    ) {
        overlay_open::<P, S>(st, path, conf)
    }

    #[verifier::loop_isolation(false)]
    fn read_dir(&self, path: &[u8]) -> (r: Result<Vec<DirEntry>, FsError>) {
        let mut merged: Vec<DirEntry> = Vec::new();
        assert(listing_of(merged@) =~= merge_upto(Seq::empty(), 0));
        let mut had_at_least_one_success = false;
        let ghost mut all: Seq<DirEntryView> = Seq::empty();
        match self.primary.read_dir(path) {
            Ok(mut l) => {
                proof {
                    all = listing_of(l@);
                    assert(Seq::<DirEntryView>::empty() + listing_of(l@) =~= listing_of(l@));
                }
                merge_into(&mut merged, l, Ghost(Seq::empty()));
                had_at_least_one_success = true;
            },
            Err(FsError::EntryNotFound) => {},
            Err(e) => {
                return Err(e);
            },
        }
        let mut i: usize = 0;
        while i < self.secondaries.len()
            invariant
                self.inv(),
                0 <= i <= self.secondaries.len(),
                listing_of(merged@) == merge_upto(all, all.len() as int),
                gather::<S>(self@.secondaries, path@, 0, match P::read_dir_spec(
                    self@.primary,
                    path@,
                ) {
                    Ok(l) => l,
                    _ => Seq::empty(),
                }, P::read_dir_spec(self@.primary, path@).is_ok()) == gather::<S>(
                    self@.secondaries,
                    path@,
                    i as int,
                    all,
                    had_at_least_one_success,
                ),
            decreases self.secondaries.len() - i,
        {
            match self.secondaries[i].read_dir(path) {
                Ok(l) => {
                    let ghost before = all;
                    proof {
                        all = all + listing_of(l@);
                    }
                    merge_into(&mut merged, l, Ghost(before));
                    had_at_least_one_success = true;
                },
                Err(FsError::EntryNotFound) => {},
                Err(e) => {
                    return Err(e);
                },
            }
            i += 1;
        }
        if had_at_least_one_success {
            Ok(merged)
        } else {
            Err(FsError::BaseNotDirectory)
        }
    }

    fn create_dir(&mut self, path: &[u8]) -> (r: Result<(), FsError>) {
        match self.primary.create_dir(path) {
            Err(FsError::EntryNotFound) => {},
            other => {
                return other;
            },
        }
        self.permission_error_or_not_found(path)
    }

    fn remove_dir(&mut self, path: &[u8]) -> (r: Result<(), FsError>) {
        match self.primary.remove_dir(path) {
            Err(FsError::EntryNotFound) => {},
            other => {
                return other;
            },
        }
        self.permission_error_or_not_found(path)
    }

    fn rename(&mut self, from: &[u8], to: &[u8]) -> (r: Result<(), FsError>) {
        match self.primary.rename(from, to) {
            Err(FsError::EntryNotFound) => {},
            other => {
                return other;
            },
        }
        self.permission_error_or_not_found(from)
    }

    #[verifier::loop_isolation(false)]
    fn metadata(&self, path: &[u8]) -> (r: Result<Metadata, FsError>) {
        match self.primary.metadata(path) {
            Ok(meta) => {
                return Ok(meta);
            },
            Err(FsError::EntryNotFound) => {},
            Err(e) => {
                return Err(e);
            },
        }
        let mut i: usize = 0;
        while i < self.secondaries.len()
            invariant
                self.inv(),
                0 <= i <= self.secondaries.len(),
                first_metadata::<S>(self@.secondaries, path@, 0) == first_metadata::<S>(
                    self@.secondaries,
                    path@,
                    i as int,
                ),
            decreases self.secondaries.len() - i,
        {
            match self.secondaries[i].metadata(path) {
                Err(FsError::EntryNotFound) => {},
                other => {
                    return other;
                },
            }
            i += 1;
        }
        Err(FsError::EntryNotFound)
    }

    fn symlink_metadata(&self, path: &[u8]) -> (r: Result<Metadata, FsError>) {
        self.metadata(path)
    }

    #[verifier::loop_isolation(false)]
    fn read_link(&self, path: &[u8]) -> (r: Result<Vec<u8>, FsError>) {
        match self.primary.read_link(path) {
            Err(FsError::EntryNotFound) => {},
            other => {
                return other;
            },
        }
        let mut i: usize = 0;
        while i < self.secondaries.len()
            invariant
                self.inv(),
                0 <= i <= self.secondaries.len(),
                first_link::<S>(self@.secondaries, path@, 0) == first_link::<S>(
                    self@.secondaries,
                    path@,
                    i as int,
                ),
            decreases self.secondaries.len() - i,
        {
            match self.secondaries[i].read_link(path) {
                Err(FsError::EntryNotFound) => {},
                other => {
                    return other;
                },
            }
            i += 1;
        }
        Err(FsError::EntryNotFound)
    }

    fn remove_file(&mut self, path: &[u8]) -> (r: Result<(), FsError>) {
        match self.primary.remove_file(path) {
            Err(FsError::EntryNotFound) => {},
            other => {
                return other;
            },
        }
        self.permission_error_or_not_found(path)
    }

    #[verifier::loop_isolation(false)]
    fn open(&mut self, path: &[u8], conf: &OpenOptionsConfig) -> (r: Result<VirtualFile, FsError>) {
        match self.primary.open(path, conf) {
            Err(FsError::EntryNotFound) => {},
            other => {
                return other;
            },
        }
        if (conf.create || conf.create_new) && !self.metadata(path).is_ok() {
            if let Some(up) = parent(path) {
                if self.any_secondary_is_dir(up.as_slice()) {
                    if let Err(e) = create_dir_all(&mut self.primary, up.as_slice()) {
                        return Err(e);
                    }
                    return self.primary.open(path, conf);
                } else {
                    return Err(FsError::EntryNotFound);
                }
            }
        }
        if opening_would_require_mutations(&self.secondaries, path, conf) {
            return Err(FsError::PermissionDenied);
        }
        let ghost start = self@.secondaries;
        let mut i: usize = 0;
        while i < self.secondaries.len()
            invariant
                self.inv(),
                0 <= i <= self.secondaries.len(),
                self@.primary == P::open_spec(old(self)@.primary, path@, *conf).1,
                self@.secondaries.len() == start.len(),
                open_first::<S>(start, path@, *conf, 0) == open_first::<S>(
                    self@.secondaries,
                    path@,
                    *conf,
                    i as int,
                ),
            decreases self.secondaries.len() - i,
        {
            let ghost before = self@.secondaries;
            let found = self.secondaries[i].open(path, conf);
            assert(self@.secondaries =~= before.update(
                i as int,
                S::open_spec(before[i as int], path@, *conf).1,
            ));
            match found {
                Err(FsError::EntryNotFound) => {},
                other => {
                    return other;
                },
            }
            i += 1;
        }
        Err(FsError::EntryNotFound)
    }
}

/// Merges the entries of one listing into a merged listing, in their order.
fn merge_into(merged: &mut Vec<DirEntry>, l: Vec<DirEntry>, Ghost(before): Ghost<Seq<DirEntryView>>)
    requires
        listing_of(old(merged)@) == merge_upto(before, before.len() as int),
    ensures
        listing_of(final(merged)@) == merge_upto(
            before + listing_of(l@),
            (before + listing_of(l@)).len() as int,
        ),
{
    let mut l = l;
    let ghost whole = before + listing_of(l@);
    let ghost add = listing_of(l@);
    let ghost mut done: int = 0;
    proof {
        lemma_merge_prefix(before, add, before.len() as int);
        assert(add.subrange(0, add.len() as int) =~= add);
    }
    while l.len() > 0
        invariant
            0 <= done <= add.len(),
            whole == before + add,
            listing_of(l@) == add.subrange(done, add.len() as int),
            listing_of(merged@) == merge_upto(whole, before.len() + done),
        decreases l.len(),
    {
        let ghost l0 = l@;
        assert(listing_of(l0).len() == l0.len());
        assert(listing_of(l0)[0] == l0[0]@);
        let e = l.remove(0);
        proof {
            assert(e@ == add[done]);
            assert(whole[before.len() + done] == add[done]);
            assert forall|k: int| 0 <= k < l@.len() implies (#[trigger] listing_of(l@)[k])
                == add.subrange(done + 1, add.len() as int)[k] by {
                assert(l@[k] == l0[k + 1]);
                assert(listing_of(l0)[k + 1] == l0[k + 1]@);
            }
            assert(listing_of(l@) =~= add.subrange(done + 1, add.len() as int));
        }
        insert_entry(merged, e);
        proof {
            done = done + 1;
        }
    }
    proof {
        assert(listing_of(l@).len() == 0);
        assert(done == add.len());
    }
}


/// Shadowing: where the primary answers an open with anything but
/// `EntryNotFound`, the overlay answers the same, and the secondaries stay
/// as they are.
pub proof fn law_open_primary_shadows<P: FileSystem, S: FileSystem>(
    st: OverlayView<P::V, S::V>,
    path: Seq<u8>,
    conf: OpenOptionsConfig,
)
    requires
        P::open_spec(st.primary, path, conf).0 != Err::<VirtualFileView, FsError>(
            FsError::EntryNotFound,
        ),
    ensures
        overlay_open::<P, S>(st, path, conf).0 == P::open_spec(st.primary, path, conf).0,
        overlay_open::<P, S>(st, path, conf).1.primary == P::open_spec(st.primary, path, conf).1,
        overlay_open::<P, S>(st, path, conf).1.secondaries == st.secondaries,
{
}

/// Falling through: where the primary does not have the file and the
/// options neither create nor change anything, the overlay answers what
/// the first secondary answers that has the file.
pub proof fn law_open_falls_through<P: FileSystem, S: FileSystem>(
    st: OverlayView<P::V, S::V>,
    path: Seq<u8>,
    conf: OpenOptionsConfig,
)
    requires
        P::open_spec(st.primary, path, conf).0 == Err::<VirtualFileView, FsError>(
            FsError::EntryNotFound,
        ),
        !conf.would_create(),
        !conf.would_mutate(),
    ensures
        overlay_open::<P, S>(st, path, conf).0 == open_first::<S>(st.secondaries, path, conf, 0).0,
{
}

/// No change below the primary: where the primary does not have the file,
/// an open that would append, write or truncate without creating is
/// answered with `PermissionDenied`, and the secondaries stay as they are.
pub proof fn law_open_never_changes_secondaries<P: FileSystem, S: FileSystem>(
    st: OverlayView<P::V, S::V>,
    path: Seq<u8>,
    conf: OpenOptionsConfig,
)
    requires
        P::open_spec(st.primary, path, conf).0 == Err::<VirtualFileView, FsError>(
            FsError::EntryNotFound,
        ),
        !conf.would_create(),
        conf.append || conf.write || conf.truncate,
    ensures
        overlay_open::<P, S>(st, path, conf).0 == Err::<VirtualFileView, FsError>(
            FsError::PermissionDenied,
        ),
        overlay_open::<P, S>(st, path, conf).1.secondaries == st.secondaries,
{
}

/// Making a directory succeeds on the overlay exactly when it succeeds on
/// the primary. Where the primary answers `EntryNotFound`, the overlay
/// answers `PermissionDenied` if a secondary has the path and
/// `EntryNotFound` if none has; any other answer of the primary is the
/// overlay's. The secondaries stay as they are.
pub proof fn law_create_dir_answers<P: FileSystem, S: FileSystem>(
    st: OverlayView<P::V, S::V>,
    path: Seq<u8>,
)
    ensures
        ({
            let primary = P::create_dir_spec(st.primary, path);
            let overlay = OverlayFileSystem::<P, S>::create_dir_spec(st, path);
            &&& overlay.0.is_ok() == primary.0.is_ok()
            &&& primary.0 == Err::<(), FsError>(FsError::EntryNotFound) && any_exists::<S>(
                st.secondaries,
                path,
            ) ==> overlay.0 == Err::<(), FsError>(FsError::PermissionDenied)
            &&& primary.0 == Err::<(), FsError>(FsError::EntryNotFound) && !any_exists::<S>(
                st.secondaries,
                path,
            ) ==> overlay.0 == Err::<(), FsError>(FsError::EntryNotFound)
            &&& primary.0 != Err::<(), FsError>(FsError::EntryNotFound) ==> overlay.0 == primary.0
            &&& overlay.1.primary == primary.1
            &&& overlay.1.secondaries == st.secondaries
        }),
{
}

/// A directory that an overlay made is there, whatever its primary and its
/// secondaries are: once `create_dir` has succeeded, the overlay's metadata
/// for the path is that of a directory.
pub proof fn law_made_dir_is_dir<P: FileSystem, S: FileSystem>(
    fs: &OverlayFileSystem<P, S>,
    path: Seq<u8>,
)
    requires
        fs.inv(),
        OverlayFileSystem::<P, S>::create_dir_spec(fs@, path).0.is_ok(),
    ensures
        is_dir_in::<OverlayFileSystem<P, S>>(
            OverlayFileSystem::<P, S>::create_dir_spec(fs@, path).1,
            path,
        ),
{
    fs.law_made_dir_is_dir(path);
}

/// The round trip of a directory on an overlay, whatever its primary and
/// its secondaries are: where neither the primary nor a secondary has
/// anything at a path and the overlay makes a directory there, the overlay
/// can remove it, and has nothing at the path after that.
pub proof fn law_dir_round_trip<P: FileSystem, S: FileSystem>(
    fs: &OverlayFileSystem<P, S>,
    path: Seq<u8>,
)
    requires
        fs.inv(),
        P::metadata_spec(fs@.primary, path) == Err::<Metadata, FsError>(FsError::EntryNotFound),
        first_metadata::<S>(fs@.secondaries, path, 0) == Err::<Metadata, FsError>(
            FsError::EntryNotFound,
        ),
        OverlayFileSystem::<P, S>::create_dir_spec(fs@, path).0.is_ok(),
    ensures
        ({
            let made = OverlayFileSystem::<P, S>::create_dir_spec(fs@, path).1;
            let gone = OverlayFileSystem::<P, S>::remove_dir_spec(made, path);
            &&& gone.0.is_ok()
            &&& gone.1.secondaries == fs@.secondaries
            &&& overlay_metadata::<P, S>(gone.1, path) == Err::<Metadata, FsError>(
                FsError::EntryNotFound,
            )
        }),
{
    fs.law_dir_round_trip(path);
}

} // verus!
