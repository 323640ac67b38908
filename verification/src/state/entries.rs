//! The entries of a directory: names and the inodes they lead to.
use crate::path::bytes_eq;
use crate::state::inodes::Inode;
use vstd::prelude::*;

verus! {

/// A map from entry names to inodes, kept as a list in which the first
/// entry of a name counts.
#[derive(Debug)]
pub struct DirEntries {
    items: Vec<(Vec<u8>, Inode)>,
}

/// The first place from `i` on that holds the name.
pub open spec fn first_from(s: Seq<(Vec<u8>, Inode)>, name: Seq<u8>, i: int) -> Option<int>
    decreases s.len() - i,
{
    if i < 0 || i >= s.len() {
        None
    } else if s[i].0@ == name {
        Some(i)
    } else {
        first_from(s, name, i + 1)
    }
}

/// The list as a map.
pub open spec fn entries_map(s: Seq<(Vec<u8>, Inode)>) -> Map<Seq<u8>, Inode> {
    Map::new(
        |name: Seq<u8>| first_from(s, name, 0).is_some(),
        |name: Seq<u8>| s[first_from(s, name, 0).unwrap()].1,
    )
}

proof fn lemma_first(s: Seq<(Vec<u8>, Inode)>, name: Seq<u8>, i: int)
    requires
        0 <= i <= s.len(),
    ensures
        match first_from(s, name, i) {
            Some(k) => i <= k < s.len() && s[k].0@ == name && forall|j: int|
                i <= j < k ==> (#[trigger] s[j]).0@ != name,
            None => forall|j: int| i <= j < s.len() ==> (#[trigger] s[j]).0@ != name,
        },
    decreases s.len() - i,
{
    if i < s.len() && s[i].0@ != name {
        lemma_first(s, name, i + 1);
    }
}

/// The first place of a name is the place before which the name does not
/// occur and at which it does.
proof fn lemma_first_is(s: Seq<(Vec<u8>, Inode)>, name: Seq<u8>, k: int)
    requires
        0 <= k < s.len(),
        s[k].0@ == name,
        forall|j: int| 0 <= j < k ==> (#[trigger] s[j]).0@ != name,
    ensures
        first_from(s, name, 0) == Some(k),
{
    lemma_first(s, name, 0);
}

proof fn lemma_first_none(s: Seq<(Vec<u8>, Inode)>, name: Seq<u8>)
    requires
        forall|j: int| 0 <= j < s.len() ==> (#[trigger] s[j]).0@ != name,
    ensures
        first_from(s, name, 0).is_none(),
{
    lemma_first(s, name, 0);
}

/// Taking out the first entry of a name leaves every other name as it was.
proof fn lemma_remove_other(s: Seq<(Vec<u8>, Inode)>, i: int, other: Seq<u8>)
    requires
        0 <= i < s.len(),
        s[i].0@ != other,
    ensures
        first_from(s.remove(i), other, 0).is_some() == first_from(s, other, 0).is_some(),
        first_from(s, other, 0).is_some() ==> s.remove(i)[first_from(s.remove(i), other, 0).unwrap()]
            == s[first_from(s, other, 0).unwrap()],
{
    let t = s.remove(i);
    lemma_first(s, other, 0);
    lemma_first(t, other, 0);
    assert forall|j: int| 0 <= j < t.len() implies (#[trigger] t[j]) == s[if j < i { j } else { j + 1 }] by {}
    match first_from(s, other, 0) {
        Some(k) => {
            let k2 = if k < i { k } else { k - 1 };
            assert(t[k2] == s[k]);
            assert forall|j: int| 0 <= j < k2 implies (#[trigger] t[j]).0@ != other by {
                assert(t[j] == s[if j < i { j } else { j + 1 }]);
            }
            lemma_first_is(t, other, k2);
        },
        None => {
            assert forall|j: int| 0 <= j < t.len() implies (#[trigger] t[j]).0@ != other by {
                assert(t[j] == s[if j < i { j } else { j + 1 }]);
            }
            lemma_first_none(t, other);
        },
    }
}

proof fn lemma_same_names(s: Seq<(Vec<u8>, Inode)>, t: Seq<(Vec<u8>, Inode)>, name: Seq<u8>, i: int)
    requires
        0 <= i <= s.len(),
        s.len() == t.len(),
        forall|k: int| 0 <= k < s.len() ==> (#[trigger] s[k]).0@ == t[k].0@,
    ensures
        first_from(s, name, i) == first_from(t, name, i),
    decreases s.len() - i,
{
    if i < s.len() && s[i].0@ != name {
        lemma_same_names(s, t, name, i + 1);
    }
}

impl DirEntries {
    /// The entries as a map.
    pub closed spec fn view(&self) -> Map<Seq<u8>, Inode> {
        entries_map(self.items@)
    }

    /// No entries.
    pub fn new() -> (r: Self)
        ensures
            r@ == Map::<Seq<u8>, Inode>::empty(),
    {
        let r = DirEntries { items: Vec::new() };
        assert(r@ =~= Map::<Seq<u8>, Inode>::empty());
        r
    }

    /// A copy of the entries.
    pub fn duplicate(&self) -> (r: Self)
        ensures
            r@ == self@,
    {
        let mut items: Vec<(Vec<u8>, Inode)> = Vec::new();
        let mut i: usize = 0;
        while i < self.items.len()
            invariant
                0 <= i <= self.items.len(),
                items@.len() == i,
                forall|k: int| 0 <= k < i ==> (#[trigger] items@[k]).0@ == self.items@[k].0@ && items@[k].1
                    == self.items@[k].1,
            decreases self.items.len() - i,
        {
            let name = vstd::slice::slice_to_vec(self.items[i].0.as_slice());
            items.push((name, self.items[i].1));
            i += 1;
        }
        let r = DirEntries { items };
        proof {
            assert forall|name: Seq<u8>| #[trigger]
                first_from(r.items@, name, 0) == first_from(self.items@, name, 0) by {
                lemma_same_names(r.items@, self.items@, name, 0);
            }
            assert forall|name: Seq<u8>| #[trigger] entries_map(r.items@).contains_key(name) implies entries_map(
                r.items@,
            )[name] == entries_map(self.items@)[name] by {
                lemma_first(r.items@, name, 0);
                let k = first_from(r.items@, name, 0).unwrap();
                assert(r.items@[k].1 == self.items@[k].1);
            }
            assert(r@ =~= self@);
        }
        r
    }

    fn find(&self, name: &[u8]) -> (r: Option<usize>)
        ensures
            match r {
                Some(i) => first_from(self.items@, name@, 0) == Some(i as int) && i
                    < self.items@.len(),
                None => first_from(self.items@, name@, 0).is_none(),
            },
    {
        let mut i: usize = 0;
        while i < self.items.len()
            invariant
                0 <= i <= self.items.len(),
                first_from(self.items@, name@, 0) == first_from(self.items@, name@, i as int),
            decreases self.items.len() - i,
        {
            if bytes_eq(self.items[i].0.as_slice(), name) {
                return Some(i);
            }
            i += 1;
        }
        None
    }

    /// The inode that a name leads to.
    pub fn get(&self, name: &[u8]) -> (r: Option<Inode>)
        ensures
            r == (if self@.contains_key(name@) {
                Some(self@[name@])
            } else {
                None
            }),
    {
        match self.find(name) {
            Some(i) => Some(self.items[i].1),
            None => None,
        }
    }

    /// Whether a name is an entry.
    pub fn contains_key(&self, name: &[u8]) -> (r: bool)
        ensures
            r == self@.contains_key(name@),
    {
        self.find(name).is_some()
    }

    /// Lets a name lead to an inode, and returns the inode it led to before.
    pub fn insert(&mut self, name: Vec<u8>, inode: Inode) -> (r: Option<Inode>)
        ensures
            final(self)@ == old(self)@.insert(name@, inode),
            r == (if old(self)@.contains_key(name@) {
                Some(old(self)@[name@])
            } else {
                None
            }),
    {
        let ghost s = self.items@;
        let ghost nv = name@;
        proof {
            lemma_first(s, nv, 0);
        }
        match self.find(name.as_slice()) {
            Some(i) => {
                let before = self.items[i].1;
                self.items.set(i, (name, inode));
                proof {
                    let t = self.items@;
                    assert forall|j: int| 0 <= j < t.len() implies (#[trigger] t[j]).0@ == s[j].0@ by {}
                    assert forall|k: Seq<u8>| #[trigger]
                        first_from(t, k, 0) == first_from(s, k, 0) by {
                        lemma_first(s, k, 0);
                        lemma_first(t, k, 0);
                        match first_from(s, k, 0) {
                            Some(a) => {
                                assert(t[a].0@ == k);
                                assert forall|j: int| 0 <= j < a implies (#[trigger] t[j]).0@ != k by {
                                    assert(t[j].0@ == s[j].0@);
                                }
                                lemma_first_is(t, k, a);
                            },
                            None => {
                                assert forall|j: int| 0 <= j < t.len() implies (#[trigger] t[j]).0@
                                    != k by {
                                    assert(t[j].0@ == s[j].0@);
                                }
                                lemma_first_none(t, k);
                            },
                        }
                    }
                    assert forall|k: Seq<u8>| #[trigger]
                        entries_map(t).contains_key(k) implies entries_map(t)[k] == entries_map(s).insert(
                        nv,
                        inode,
                    )[k] by {
                        lemma_first(s, k, 0);
                        assert(first_from(t, k, 0) == first_from(s, k, 0));
                        let a = first_from(s, k, 0).unwrap();
                        if k != nv {
                            assert(a != i);
                            assert(t[a] == s[a]);
                        }
                    }
                    assert forall|k: Seq<u8>|
                        entries_map(t).contains_key(k) == #[trigger] entries_map(s).insert(
                            nv,
                            inode,
                        ).contains_key(k) by {
                        assert(first_from(t, k, 0) == first_from(s, k, 0));
                    }
                    assert(entries_map(t) =~= entries_map(s).insert(nv, inode));
                }
                Some(before)
            },
            None => {
                self.items.push((name, inode));
                proof {
                    let t = self.items@;
                    let n = s.len() as int;
                    assert(t[n].0@ == nv);
                    assert forall|j: int| 0 <= j < n implies (#[trigger] t[j]) == s[j] by {}
                    assert forall|j: int| 0 <= j < n implies (#[trigger] t[j]).0@ != nv by {
                        assert(t[j] == s[j]);
                    }
                    lemma_first_is(t, nv, n);
                    assert forall|k: Seq<u8>|
                        k != nv implies first_from(t, k, 0) == first_from(s, k, 0) by {
                        lemma_first(s, k, 0);
                        lemma_first(t, k, 0);
                        match first_from(s, k, 0) {
                            Some(a) => {
                                assert(t[a] == s[a]);
                                assert forall|j: int| 0 <= j < a implies (#[trigger] t[j]).0@ != k by {
                                    assert(t[j] == s[j]);
                                }
                                lemma_first_is(t, k, a);
                            },
                            None => {
                                assert forall|j: int| 0 <= j < t.len() implies (#[trigger] t[j]).0@
                                    != k by {
                                    if j < n {
                                        assert(t[j] == s[j]);
                                    }
                                }
                                lemma_first_none(t, k);
                            },
                        }
                    }
                    assert forall|k: Seq<u8>| k != nv && first_from(s, k, 0).is_some() implies t[first_from(
                        s,
                        k,
                        0,
                    ).unwrap()] == s[first_from(s, k, 0).unwrap()] by {
                        lemma_first(s, k, 0);
                    }
                    assert(entries_map(t) =~= entries_map(s).insert(nv, inode));
                }
                None
            },
        }
    }

    /// Takes a name out, and returns the inode it led to.
    pub fn remove(&mut self, name: &[u8]) -> (r: Option<Inode>)
        ensures
            final(self)@ == old(self)@.remove(name@),
            r == (if old(self)@.contains_key(name@) {
                Some(old(self)@[name@])
            } else {
                None
            }),
    {
        let ghost s = self.items@;
        let out = self.get(name);
        let mut more = true;
        while more
            invariant
                more || first_from(self.items@, name@, 0).is_none(),
                forall|k: Seq<u8>|
                    k != name@ ==> (#[trigger] first_from(s, k, 0)).is_some() == first_from(
                        self.items@,
                        k,
                        0,
                    ).is_some() && (first_from(s, k, 0).is_some() ==> self.items@[first_from(
                        self.items@,
                        k,
                        0,
                    ).unwrap()] == s[first_from(s, k, 0).unwrap()]),
            decreases self.items.len() + (if more { 1int } else { 0int }),
        {
            let ghost t = self.items@;
            proof {
                lemma_first(t, name@, 0);
            }
            match self.find(name) {
                None => {
                    more = false;
                },
                Some(i) => {
                    self.items.remove(i);
                    proof {
                        assert forall|k: Seq<u8>| k != name@ implies (#[trigger] first_from(
                            s,
                            k,
                            0,
                        )).is_some() == first_from(self.items@, k, 0).is_some() && (first_from(
                            s,
                            k,
                            0,
                        ).is_some() ==> self.items@[first_from(self.items@, k, 0).unwrap()]
                            == s[first_from(s, k, 0).unwrap()]) by {
                            lemma_remove_other(t, i as int, k);
                        }
                    }
                },
            }
        }
        proof {
            let t = self.items@;
            assert forall|k: Seq<u8>| #[trigger]
                entries_map(t).contains_key(k) == entries_map(s).remove(name@).contains_key(k) by {
                if k != name@ {
                    assert(first_from(s, k, 0).is_some() == first_from(t, k, 0).is_some());
                }
            }
            assert forall|k: Seq<u8>| #[trigger]
                entries_map(t).contains_key(k) implies entries_map(t)[k] == entries_map(s).remove(
                name@,
            )[k] by {
                assert(first_from(s, k, 0).is_some());
            }
            assert(entries_map(t) =~= entries_map(s).remove(name@));
        }
        out
    }
}

} // verus!
