//! Paths as byte strings, split into components at `/`.
//!
//! A leading `/` is a component of its own, named `/`. Empty segments are
//! dropped, and so is `.` unless it is the first segment of a relative path.
use vstd::prelude::*;
use vstd::slice::slice_subrange;
use vstd::slice::slice_to_vec;

verus! {

/// The separator, `/`.
pub const SEP: u8 = 47;

/// The byte `.`.
pub const DOT: u8 = 46;

/// The name of the root component, `/`.
pub open spec fn root_name() -> Seq<u8> {
    seq![47u8]
}

/// The name `.`.
pub open spec fn cur_name() -> Seq<u8> {
    seq![46u8]
}

/// The name `..`.
pub open spec fn parent_name() -> Seq<u8> {
    seq![46u8, 46u8]
}

/// The views of a list of names.
pub open spec fn names_of(v: Seq<Vec<u8>>) -> Seq<Seq<u8>> {
    Seq::new(v.len(), |i: int| v[i]@)
}

/// Where the segment that starts at `start` ends: at the first separator
/// from there on, or at the end of the path.
pub open spec fn segment_end(p: Seq<u8>, start: int) -> int
    decreases p.len() - start,
{
    if start < 0 || start >= p.len() || p[start] == SEP {
        start
    } else {
        segment_end(p, start + 1)
    }
}

/// Whether a segment is a component: it is not empty, and it is not `.`
/// unless it leads a relative path.
pub open spec fn keeps_segment(seg: Seq<u8>, leading: bool) -> bool {
    seg.len() > 0 && (seg != cur_name() || leading)
}

/// The components of the part of `p` that starts at `start`.
pub open spec fn components_from(p: Seq<u8>, start: int, leading: bool) -> Seq<Seq<u8>>
    decreases p.len() - start,
{
    if start < 0 || start >= p.len() {
        Seq::empty()
    } else if p[start] == SEP {
        components_from(p, start + 1, false)
    } else {
        let end = segment_end(p, start);
        let seg = p.subrange(start, end);
        let rest = if start < end < p.len() {
            components_from(p, end + 1, false)
        } else {
            Seq::empty()
        };
        if keeps_segment(seg, leading) {
            seq![seg] + rest
        } else {
            rest
        }
    }
}

/// The components of a path.
pub open spec fn components_of(p: Seq<u8>) -> Seq<Seq<u8>> {
    if p.len() > 0 && p[0] == SEP {
        seq![root_name()] + components_from(p, 1, false)
    } else {
        components_from(p, 0, true)
    }
}

/// A path with one more component pushed onto it: an absolute component
/// replaces the path, any other is appended behind a separator.
pub open spec fn push_component(base: Seq<u8>, comp: Seq<u8>) -> Seq<u8> {
    if comp.len() > 0 && comp[0] == SEP {
        comp
    } else if base.len() == 0 {
        comp
    } else if base.last() == SEP {
        base + comp
    } else {
        base + seq![SEP] + comp
    }
}

/// The path made by pushing the components one after the other.
pub open spec fn join_components(c: Seq<Seq<u8>>) -> Seq<u8>
    decreases c.len(),
{
    if c.len() == 0 {
        Seq::empty()
    } else {
        push_component(join_components(c.drop_last()), c.last())
    }
}

/// The path without its last component; none for an empty path and for one
/// that ends in the root.
pub open spec fn parent_of(p: Seq<u8>) -> Option<Seq<u8>> {
    let c = components_of(p);
    if c.len() == 0 || c.last() == root_name() {
        None
    } else {
        Some(join_components(c.drop_last()))
    }
}

/// The last component, if it is an ordinary name.
pub open spec fn file_name_of(p: Seq<u8>) -> Option<Seq<u8>> {
    let c = components_of(p);
    if c.len() == 0 || c.last() == root_name() || c.last() == cur_name() || c.last()
        == parent_name() {
        None
    } else {
        Some(c.last())
    }
}

/// Whether the components of `base` lead the components of `p`.
pub open spec fn has_prefix(p: Seq<u8>, base: Seq<u8>) -> bool {
    let c = components_of(p);
    let b = components_of(base);
    b.len() <= c.len() && c.subrange(0, b.len() as int) == b
}

/// What is left of `p` behind the components of `base`.
pub open spec fn strip_prefix_of(p: Seq<u8>, base: Seq<u8>) -> Option<Seq<u8>> {
    let c = components_of(p);
    let b = components_of(base);
    if has_prefix(p, base) {
        Some(join_components(c.subrange(b.len() as int, c.len() as int)))
    } else {
        None
    }
}

proof fn lemma_segment_end_bounds(p: Seq<u8>, start: int)
    requires
        0 <= start <= p.len(),
    ensures
        start <= segment_end(p, start) <= p.len(),
        segment_end(p, start) < p.len() ==> p[segment_end(p, start)] == SEP,
        forall|k: int| start <= k < segment_end(p, start) ==> p[k] != SEP,
    decreases p.len() - start,
{
    if start < p.len() && p[start] != SEP {
        lemma_segment_end_bounds(p, start + 1);
    }
}

proof fn lemma_components_from_are_names(p: Seq<u8>, start: int, leading: bool)
    requires
        0 <= start,
    ensures
        forall|i: int, k: int|
            0 <= i < components_from(p, start, leading).len() && 0 <= k < components_from(
                p,
                start,
                leading,
            )[i].len() ==> #[trigger] components_from(p, start, leading)[i][k] != SEP,
    decreases p.len() - start,
{
    if start < p.len() {
        if p[start] == SEP {
            lemma_components_from_are_names(p, start + 1, false);
        } else {
            lemma_segment_end_bounds(p, start);
            let end = segment_end(p, start);
            let seg = p.subrange(start, end);
            if start < end < p.len() {
                lemma_components_from_are_names(p, end + 1, false);
            }
            let rest = if start < end < p.len() {
                components_from(p, end + 1, false)
            } else {
                Seq::<Seq<u8>>::empty()
            };
            assert forall|k: int| 0 <= k < seg.len() implies #[trigger] seg[k] != SEP by {
                assert(seg[k] == p[start + k]);
            }
            if keeps_segment(seg, leading) {
                let all = seq![seg] + rest;
                assert forall|i: int, k: int| 0 <= i < all.len() && 0 <= k < all[i].len() implies #[trigger] all[i][k]
                    != SEP by {
                    if i > 0 {
                        assert(all[i] == rest[i - 1]);
                    }
                }
            }
        }
    }
}

/// Every component of a path but the root component is a name: it holds
/// no separator.
pub proof fn lemma_components_are_names(p: Seq<u8>)
    ensures
        forall|i: int|
            0 <= i < components_of(p).len() ==> (#[trigger] components_of(p)[i]) == root_name()
                || forall|k: int| 0 <= k < components_of(p)[i].len() ==> #[trigger] components_of(p)[i][k] != SEP,
{
    if p.len() > 0 && p[0] == SEP {
        lemma_components_from_are_names(p, 1, false);
        let rest = components_from(p, 1, false);
        let all = seq![root_name()] + rest;
        assert forall|i: int| 0 <= i < all.len() implies (#[trigger] all[i]) == root_name() || forall|k: int|
            0 <= k < all[i].len() ==> #[trigger] all[i][k] != SEP by {
            if i > 0 {
                assert(all[i] == rest[i - 1]);
            }
        }
    } else {
        lemma_components_from_are_names(p, 0, true);
    }
}

/// Whether two byte strings are equal.
pub fn bytes_eq(a: &[u8], b: &[u8]) -> (r: bool)
    ensures
        r == (a@ == b@),
{
    if a.len() != b.len() {
        return false;
    }
    let mut i: usize = 0;
    while i < a.len()
        invariant
            a.len() == b.len(),
            0 <= i <= a.len(),
            forall|k: int| 0 <= k < i ==> a@[k] == b@[k],
        decreases a.len() - i,
    {
        if a[i] != b[i] {
            return false;
        }
        i += 1;
    }
    assert(a@ =~= b@);
    true
}

/// Whether a name is `.`.
pub fn is_cur(name: &[u8]) -> (r: bool)
    ensures
        r == (name@ == cur_name()),
{
    let r = name.len() == 1 && name[0] == DOT;
    assert(r ==> name@ =~= cur_name());
    r
}

/// Whether a name is `..`.
pub fn is_parent(name: &[u8]) -> (r: bool)
    ensures
        r == (name@ == parent_name()),
{
    let r = name.len() == 2 && name[0] == DOT && name[1] == DOT;
    assert(r ==> name@ =~= parent_name());
    r
}

/// Whether a name is `/`.
pub fn is_root(name: &[u8]) -> (r: bool)
    ensures
        r == (name@ == root_name()),
{
    let r = name.len() == 1 && name[0] == SEP;
    assert(r ==> name@ =~= root_name());
    r
}

/// Splits a path into its components.
pub fn components(path: &[u8]) -> (r: Vec<Vec<u8>>)
    ensures
        names_of(r@) == components_of(path@),
{
    let mut out: Vec<Vec<u8>> = Vec::new();
    let n: usize = path.len();
    let mut i: usize = 0;
    let mut leading: bool = true;
    if n > 0 && path[0] == SEP {
        let mut root: Vec<u8> = Vec::new();
        root.push(SEP);
        assert(root@ =~= root_name());
        out.push(root);
        i = 1;
        leading = false;
    }
    assert(names_of(out@) =~= if n > 0 && path@[0] == SEP {
        seq![root_name()]
    } else {
        Seq::<Seq<u8>>::empty()
    });
    while i < n
        invariant
            n == path@.len(),
            0 <= i <= n,
            components_of(path@) == names_of(out@) + components_from(path@, i as int, leading),
        decreases n - i,
    {
        let mut j: usize = i;
        while j < n && path[j] != SEP
            invariant
                n == path@.len(),
                i <= j <= n,
                segment_end(path@, j as int) == segment_end(path@, i as int),
                forall|k: int| i <= k < j ==> path@[k] != SEP,
            decreases n - j,
        {
            j += 1;
        }
        proof {
            lemma_segment_end_bounds(path@, i as int);
        }
        assert(j as int == segment_end(path@, i as int));
        let ghost before = names_of(out@);
        if j > i {
            let seg = slice_to_vec(slice_subrange(path, i, j));
            assert(seg@ == path@.subrange(i as int, j as int));
            if !is_cur(seg.as_slice()) || leading {
                out.push(seg);
                assert(names_of(out@) =~= before + seq![path@.subrange(i as int, j as int)]);
            }
            assert(before + components_from(path@, i as int, leading) =~= names_of(out@)
                + components_from(path@, j + 1, false));
        } else {
            assert(path@[i as int] == SEP);
        }
        leading = false;
        if j >= n {
            i = n;
            assert(components_from(path@, i as int, leading) =~= Seq::<Seq<u8>>::empty());
        } else {
            i = j + 1;
        }
    }
    assert(components_from(path@, i as int, leading) =~= Seq::<Seq<u8>>::empty());
    assert(names_of(out@) + Seq::<Seq<u8>>::empty() =~= names_of(out@));
    out
}

/// Pushes one component onto a path.
pub fn push(base: &mut Vec<u8>, comp: &[u8])
    ensures
        final(base)@ == push_component(old(base)@, comp@),
{
    if comp.len() > 0 && comp[0] == SEP {
        base.clear();
    } else if base.len() > 0 && base[base.len() - 1] != SEP {
        base.push(SEP);
    }
    let ghost mid = base@;
    let mut k: usize = 0;
    while k < comp.len()
        invariant
            0 <= k <= comp.len(),
            base@ == mid + comp@.subrange(0, k as int),
        decreases comp.len() - k,
    {
        base.push(comp[k]);
        assert(base@ =~= mid + comp@.subrange(0, k + 1));
        k += 1;
    }
    assert(comp@.subrange(0, comp.len() as int) =~= comp@);
    assert(base@ =~= push_component(old(base)@, comp@));
}

/// A path with one more component.
pub fn join(base: &[u8], comp: &[u8]) -> (r: Vec<u8>)
    ensures
        r@ == push_component(base@, comp@),
{
    let mut out = slice_to_vec(base);
    push(&mut out, comp);
    out
}

/// The path made of the components `c[from..to]`.
pub fn join_range(c: &Vec<Vec<u8>>, from: usize, to: usize) -> (r: Vec<u8>)
    requires
        from <= to <= c.len(),
    ensures
        r@ == join_components(names_of(c@).subrange(from as int, to as int)),
{
    let mut out: Vec<u8> = Vec::new();
    let mut k: usize = from;
    let ghost names = names_of(c@);
    assert(names.subrange(from as int, from as int) =~= Seq::<Seq<u8>>::empty());
    while k < to
        invariant
            from <= k <= to <= c.len(),
            names == names_of(c@),
            out@ == join_components(names.subrange(from as int, k as int)),
        decreases to - k,
    {
        push(&mut out, c[k].as_slice());
        assert(names.subrange(from as int, k + 1).drop_last() =~= names.subrange(
            from as int,
            k as int,
        ));
        assert(names.subrange(from as int, k + 1).last() == c@[k as int]@);
        k += 1;
    }
    out
}

/// The path without its last component.
pub fn parent(path: &[u8]) -> (r: Option<Vec<u8>>)
    ensures
        r.is_some() == parent_of(path@).is_some(),
        r.is_some() ==> r.unwrap()@ == parent_of(path@).unwrap(),
{
    let c = components(path);
    let n = c.len();
    if n == 0 || is_root(c[n - 1].as_slice()) {
        return None;
    }
    let out = join_range(&c, 0, n - 1);
    assert(names_of(c@).subrange(0, n - 1) =~= components_of(path@).drop_last());
    Some(out)
}

/// The last component, if it is an ordinary name.
pub fn file_name(path: &[u8]) -> (r: Option<Vec<u8>>)
    ensures
        r.is_some() == file_name_of(path@).is_some(),
        r.is_some() ==> r.unwrap()@ == file_name_of(path@).unwrap(),
{
    let c = components(path);
    let n = c.len();
    if n == 0 {
        return None;
    }
    let last = c[n - 1].as_slice();
    if is_root(last) || is_cur(last) || is_parent(last) {
        return None;
    }
    Some(slice_to_vec(last))
}

/// What is left of `path` behind `base`, when the components of `base`
/// lead those of `path`.
pub fn strip_prefix(path: &[u8], base: &[u8]) -> (r: Option<Vec<u8>>)
    ensures
        r.is_some() == strip_prefix_of(path@, base@).is_some(),
        r.is_some() ==> r.unwrap()@ == strip_prefix_of(path@, base@).unwrap(),
{
    let c = components(path);
    let b = components(base);
    assert(names_of(c@).len() == c.len() && names_of(b@).len() == b.len());
    if b.len() > c.len() {
        return None;
    }
    let mut k: usize = 0;
    while k < b.len()
        invariant
            0 <= k <= b.len() <= c.len(),
            names_of(c@) == components_of(path@),
            names_of(b@) == components_of(base@),
            forall|m: int| 0 <= m < k ==> c@[m]@ == b@[m]@,
        decreases b.len() - k,
    {
        if !bytes_eq(c[k].as_slice(), b[k].as_slice()) {
            proof {
                let x = components_of(path@).subrange(0, b.len() as int);
                let y = components_of(base@);
                assert(x[k as int] == c@[k as int]@);
                assert(y[k as int] == b@[k as int]@);
                assert(x != y);
            }
            return None;
        }
        k += 1;
    }
    assert(names_of(c@).subrange(0, b.len() as int) =~= names_of(b@));
    Some(join_range(&c, b.len(), c.len()))
}

} // verus!
