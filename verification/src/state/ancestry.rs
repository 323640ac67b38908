//! Where a path leads through: the inodes along a walk, each an entry of
//! the one before.
use crate::errors::Errno;
use crate::path::cur_name;
use crate::path::parent_name;
use crate::path::push_component;
use crate::path::root_name;
use crate::state::fs::with_entry;
use crate::state::fs::with_inode;
use crate::state::fs::WalkEnv;
use crate::state::fs::WalkState;
use crate::state::inodes::Inode;
use crate::state::inodes::InodeValView;
use crate::state::inodes::KindView;
use crate::state::open::entries_of;
use crate::state::resolve::by_step;
use crate::state::resolve::make_ok;
use crate::state::resolve::pending_link;
use crate::state::resolve::step_plan;
use crate::state::resolve::step_rel;
use crate::state::resolve::step_via;
use crate::state::resolve::walk_rel;
use crate::state::resolve::StepOut;
use crate::state::resolve::StepPlan;
use crate::state::types::MAX_SYMLINKS;
use crate::vfs::FileSystem;
use crate::vfs::FileType;
use vstd::prelude::*;

verus! {

/// Whether no directory of the store has a link of this name.
pub open spec fn no_link_named<R: FileSystem>(root: R::V, name: Seq<u8>) -> bool {
    forall|dir: Seq<u8>|
        match #[trigger] R::symlink_metadata_spec(root, push_component(dir, name)) {
            Ok(md) => md.ft != FileType::Symlink,
            Err(_) => true,
        }
}

/// Whether none of the components from `i` on is the name of a link.
pub open spec fn no_links_from<R: FileSystem>(root: R::V, comps: Seq<Seq<u8>>, i: int) -> bool {
    forall|j: int| i <= j < comps.len() ==> no_link_named::<R>(root, #[trigger] comps[j])
}

/// Whether an inode of the state is a link.
pub open spec fn is_link(nodes: Map<Inode, InodeValView>, c: Inode) -> bool {
    nodes.contains_key(c) && nodes[c].kind is Symlink
}

/// The inode to which an entry of a directory leads.
pub open spec fn entry_at(nodes: Map<Inode, InodeValView>, d: Inode, name: Seq<u8>) -> Option<
    Inode,
> {
    if !nodes.contains_key(d) {
        None
    } else {
        match entries_of(nodes[d].kind) {
            Some(e) => if e.contains_key(name) {
                Some(e[name])
            } else {
                None
            },
            None => None,
        }
    }
}

/// Whether every inode of a state is in use, and every entry leads to an
/// inode that is in use and is no link.
pub open spec fn tidy(st: WalkState) -> bool {
    &&& forall|i: Inode| #[trigger] st.nodes.contains_key(i) ==> st.used.contains(i)
    &&& forall|d: Inode, name: Seq<u8>|
        match #[trigger] entry_at(st.nodes, d, name) {
            Some(c) => st.used.contains(c) && !is_link(st.nodes, c),
            None => true,
        }
}

/// Whether the components from `i` on are names: none is `..`, `.` or the
/// root component.
pub open spec fn plain_from(comps: Seq<Seq<u8>>, i: int) -> bool {
    forall|j: int|
        i <= j < comps.len() ==> (#[trigger] comps[j]) != parent_name() && comps[j] != cur_name()
            && comps[j] != root_name()
}

/// Whether the entries of a state are kept in a later state: every inode
/// is still there, and every name still leads where it led.
pub open spec fn grows(a: WalkState, b: WalkState) -> bool {
    forall|d: Inode| #[trigger]
        a.nodes.contains_key(d) ==> b.nodes.contains_key(d) && match entries_of(a.nodes[d].kind) {
            Some(e0) => match entries_of(b.nodes[d].kind) {
                Some(e1) => forall|name: Seq<u8>| #[trigger]
                    e0.contains_key(name) ==> e1.contains_key(name) && e1[name] == e0[name],
                None => false,
            },
            None => true,
        }
}

/// Whether the components `comps[i..]` lead from `cur` to `found` by the
/// entries of directories: each component is an entry of the inode before
/// it.
pub open spec fn chain(
    nodes: Map<Inode, InodeValView>,
    cur: Inode,
    comps: Seq<Seq<u8>>,
    i: int,
    found: Inode,
) -> bool
    decreases comps.len() - i,
{
    if i < 0 || i >= comps.len() {
        cur == found
    } else {
        nodes.contains_key(cur) && match entries_of(nodes[cur].kind) {
            Some(e) => e.contains_key(comps[i]) && chain(nodes, e[comps[i]], comps, i + 1, found),
            None => false,
        }
    }
}

/// The inode at which the entries stand after the components `comps[i..k]`
/// from `cur`.
pub open spec fn node_at(
    nodes: Map<Inode, InodeValView>,
    cur: Inode,
    comps: Seq<Seq<u8>>,
    i: int,
    k: int,
) -> Inode
    decreases k - i,
{
    if i < 0 || i >= k || !nodes.contains_key(cur) {
        cur
    } else {
        match entries_of(nodes[cur].kind) {
            Some(e) => node_at(nodes, e[comps[i]], comps, i + 1, k),
            None => cur,
        }
    }
}

proof fn lemma_grows_transitive(a: WalkState, b: WalkState, c: WalkState)
    requires
        grows(a, b),
        grows(b, c),
    ensures
        grows(a, c),
{
    assert forall|d: Inode| #[trigger] a.nodes.contains_key(d) implies c.nodes.contains_key(d) && match entries_of(
        a.nodes[d].kind,
    ) {
        Some(e0) => match entries_of(c.nodes[d].kind) {
            Some(e2) => forall|name: Seq<u8>| #[trigger]
                e0.contains_key(name) ==> e2.contains_key(name) && e2[name] == e0[name],
            None => false,
        },
        None => true,
    } by {
        assert(b.nodes.contains_key(d));
        match entries_of(a.nodes[d].kind) {
            Some(e0) => {
                let e1 = entries_of(b.nodes[d].kind).unwrap();
                let e2 = entries_of(c.nodes[d].kind).unwrap();
                assert forall|name: Seq<u8>| #[trigger] e0.contains_key(name) implies e2.contains_key(
                    name,
                ) && e2[name] == e0[name] by {
                    assert(e1.contains_key(name));
                }
            },
            None => {},
        }
    }
}

/// A step over a name that is no link's, in a tidy state, leaves the state
/// tidy, keeps every entry, and makes the name lead to where it went.
proof fn lemma_step<R: FileSystem>(
    env: WalkEnv<R::V>,
    st0: WalkState,
    cur: Inode,
    comp: Seq<u8>,
    next: Inode,
    st1: WalkState,
)
    requires
        step_rel::<R>(env, st0, cur, comp, StepOut::Next(next), st1),
        no_link_named::<R>(env.root, comp),
        tidy(st0),
        comp != parent_name(),
        comp != cur_name(),
        comp != root_name(),
    ensures
        tidy(st1),
        grows(st0, st1),
        st1.nodes.contains_key(cur),
        entries_of(st1.nodes[cur].kind).is_some(),
        entries_of(st1.nodes[cur].kind).unwrap().contains_key(comp),
        entries_of(st1.nodes[cur].kind).unwrap()[comp] == next,
        !is_link(st1.nodes, next),
{
    let plan = step_plan::<R>(env, st0, cur, comp);
    assert(st0.nodes.contains_key(cur));
    match plan {
        StepPlan::Make { kind, name, stat, attach } => {
            let i = choose|i: Inode| #[trigger] make_ok(st0, i, plan, cur, comp, StepOut::Next(next), st1);
            assert(!st0.nodes.contains_key(i));
            assert(i != cur);
            let iv = InodeValView { stat, is_preopened: false, name, kind };
            let mid = with_inode(st0, i, iv);
            assert(mid.nodes[cur] == st0.nodes[cur]);
            let dir_path = match st0.nodes[cur].kind {
                KindView::Dir { parent, path, entries } => path,
                _ => Seq::empty(),
            };
            let file = crate::path::push_component(dir_path, comp);
            assert(R::symlink_metadata_spec(env.root, file).is_ok());
            assert(attach);
            assert(!(kind is Symlink));
            assert(st1.nodes == with_entry(mid.nodes, cur, comp, i));
            assert forall|d: Inode| #[trigger] st1.nodes.contains_key(d) implies st1.used.contains(d) by {
                if d != i && d != cur {
                    assert(st0.nodes.contains_key(d));
                }
            }
            assert forall|d: Inode, name: Seq<u8>|
                match #[trigger] entry_at(st1.nodes, d, name) {
                    Some(c) => st1.used.contains(c) && !is_link(st1.nodes, c),
                    None => true,
                } by {
                if d == i {
                    assert(entry_at(st1.nodes, d, name).is_none());
                } else if d == cur && name == comp {
                    assert(entry_at(st1.nodes, d, name) == Some(i));
                } else if st1.nodes.contains_key(d) {
                    assert(st0.nodes.contains_key(d));
                    assert(entry_at(st1.nodes, d, name) == entry_at(st0.nodes, d, name));
                    match entry_at(st0.nodes, d, name) {
                        Some(c) => {
                            assert(st0.used.contains(c));
                            assert(c != i);
                            if c != cur && st0.nodes.contains_key(c) {
                                assert(st1.nodes[c] == st0.nodes[c]);
                            }
                        },
                        None => {},
                    }
                }
            }
            assert forall|d: Inode| #[trigger] st0.nodes.contains_key(d) implies st1.nodes.contains_key(
                d,
            ) && match entries_of(st0.nodes[d].kind) {
                Some(e0) => match entries_of(st1.nodes[d].kind) {
                    Some(e1) => forall|name: Seq<u8>| #[trigger]
                        e0.contains_key(name) ==> e1.contains_key(name) && e1[name] == e0[name],
                    None => false,
                },
                None => true,
            } by {
                if d != cur {
                    assert(d != i);
                    assert(st1.nodes[d] == st0.nodes[d]);
                }
            }
        },
        _ => {
            assert(st1 == st0);
            assert(entry_at(st0.nodes, cur, comp) == Some(next));
        },
    }
}

/// Along the entries: in a tidy state, the walk from an inode that is no
/// link, along names that are no links',
/// keeps every entry that was there, and where it ends, the names lead
/// from its start by the entries of the state it leaves.
pub proof fn law_walk_follows_entries<R: FileSystem>(
    env: WalkEnv<R::V>,
    st0: WalkState,
    cur: Inode,
    comps: Seq<Seq<u8>>,
    i: int,
    count: int,
    follow: bool,
    found: Inode,
    st1: WalkState,
    end: int,
)
    requires
        walk_rel::<R>(env, st0, cur, comps, i, count, follow, Ok(found), st1, end),
        no_links_from::<R>(env.root, comps, i),
        tidy(st0),
        !is_link(st0.nodes, cur),
        plain_from(comps, i),
    ensures
        tidy(st1),
        grows(st0, st1),
        chain(st1.nodes, cur, comps, i, found),
        end == count,
    decreases comps.len() - i,
{
    let res = Ok::<Inode, Errno>(found);
    assert(pending_link(st0, cur, comps.len() as int, i, follow).is_none());
    if i < comps.len() {
        let (out, stm) = choose|out: StepOut, stm: WalkState| #[trigger]
            by_step(out, stm) && step_via::<R>(
                env,
                st0,
                cur,
                comps,
                i,
                count,
                follow,
                res,
                st1,
                end,
                out,
                stm,
            );
        match out {
            StepOut::Next(c) => {
                lemma_step::<R>(env, st0, cur, comps[i], c, stm);
                law_walk_follows_entries::<R>(
                    env,
                    stm,
                    c,
                    comps,
                    i + 1,
                    count,
                    follow,
                    found,
                    st1,
                    end,
                );
                lemma_grows_transitive(st0, stm, st1);
                assert(stm.nodes.contains_key(cur));
                let e0 = entries_of(stm.nodes[cur].kind).unwrap();
                assert(e0.contains_key(comps[i]));
            },
            StepOut::Fail(e) => {},
        }
    }
}

proof fn lemma_walk_by_entries<R: FileSystem>(
    env: WalkEnv<R::V>,
    st: WalkState,
    cur: Inode,
    comps: Seq<Seq<u8>>,
    i: int,
    k: int,
    count: int,
    follow: bool,
    found: Inode,
)
    requires
        0 <= i <= k <= comps.len(),
        0 <= count <= MAX_SYMLINKS,
        tidy(st),
        !is_link(st.nodes, cur),
        plain_from(comps, i),
        chain(st.nodes, cur, comps, i, found),
    ensures
        walk_rel::<R>(
            env,
            st,
            cur,
            comps.subrange(0, k),
            i,
            count,
            follow,
            Ok(node_at(st.nodes, cur, comps, i, k)),
            st,
            count,
        ),
        chain(st.nodes, node_at(st.nodes, cur, comps, i, k), comps, k, found),
    decreases k - i,
{
    let pre = comps.subrange(0, k);
    assert(pending_link(st, cur, k, i, follow).is_none());
    if i < k {
        let e = entries_of(st.nodes[cur].kind).unwrap();
        let c = e[comps[i]];
        assert(entry_at(st.nodes, cur, comps[i]) == Some(c));
        lemma_walk_by_entries::<R>(env, st, c, comps, i + 1, k, count, follow, found);
        let a = node_at(st.nodes, cur, comps, i, k);
        assert(pre[i] == comps[i]);
        assert(step_rel::<R>(env, st, cur, pre[i], StepOut::Next(c), st));
        assert(by_step(StepOut::Next(c), st) && step_via::<R>(
            env,
            st,
            cur,
            pre,
            i,
            count,
            follow,
            Ok(a),
            st,
            count,
            StepOut::Next(c),
            st,
        ));
    }
}

/// Prefixes lead to ancestors: in a tidy state, once the walk from an
/// inode that is no link, along names that are no links', has ended at an
/// inode, the walk along the first `k` of the names ends, without changing
/// anything, at the inode from which the remaining names lead to that
/// inode by the entries of directories.
pub proof fn law_prefix_is_ancestor<R: FileSystem>(
    env: WalkEnv<R::V>,
    st0: WalkState,
    base: Inode,
    comps: Seq<Seq<u8>>,
    k: int,
    count: int,
    follow: bool,
    found: Inode,
    st1: WalkState,
    end: int,
)
    requires
        0 <= k <= comps.len(),
        walk_rel::<R>(env, st0, base, comps, 0, count, follow, Ok(found), st1, end),
        no_links_from::<R>(env.root, comps, 0),
        tidy(st0),
        !is_link(st0.nodes, base),
        plain_from(comps, 0),
    ensures
        walk_rel::<R>(
            env,
            st1,
            base,
            comps.subrange(0, k),
            0,
            count,
            follow,
            Ok(node_at(st1.nodes, base, comps, 0, k)),
            st1,
            count,
        ),
        chain(st1.nodes, node_at(st1.nodes, base, comps, 0, k), comps, k, found),
{
    law_walk_follows_entries::<R>(env, st0, base, comps, 0, count, follow, found, st1, end);
    lemma_walk_by_entries::<R>(env, st1, base, comps, 0, k, count, follow, found);
}

/// The directory above an inode: what a directory names as its parent.
pub open spec fn parent_in(nodes: Map<Inode, InodeValView>, c: Inode) -> Option<Inode> {
    if !nodes.contains_key(c) {
        None
    } else {
        match nodes[c].kind {
            KindView::Dir { parent, path, entries } => parent,
            _ => None,
        }
    }
}

/// Whether the entries and the parents of a state agree: every entry
/// leads to an inode in use, and where that inode has entries of its own,
/// it is a directory that names as its parent the one that holds the
/// entry.
pub open spec fn parented(st: WalkState) -> bool {
    forall|d: Inode, name: Seq<u8>|
        match #[trigger] entry_at(st.nodes, d, name) {
            Some(c) => st.used.contains(c) && (st.nodes.contains_key(c) && entries_of(
                st.nodes[c].kind,
            ).is_some() ==> parent_in(st.nodes, c) == Some(d)),
            None => true,
        }
}

/// The inode that is `n` parents above an inode.
pub open spec fn above(nodes: Map<Inode, InodeValView>, c: Inode, n: int) -> Option<Inode>
    decreases n,
{
    if n <= 0 {
        Some(c)
    } else {
        match parent_in(nodes, c) {
            Some(p) => above(nodes, p, n - 1),
            None => None,
        }
    }
}

proof fn lemma_above_one_more(nodes: Map<Inode, InodeValView>, c: Inode, n: int, m: Inode, top: Inode)
    requires
        n >= 0,
        above(nodes, c, n) == Some(m),
        parent_in(nodes, m) == Some(top),
    ensures
        above(nodes, c, n + 1) == Some(top),
    decreases n,
{
    if n > 0 {
        let p = parent_in(nodes, c).unwrap();
        lemma_above_one_more(nodes, p, n - 1, m, top);
    } else {
        assert(above(nodes, top, 0) == Some(top));
    }
}

proof fn lemma_step_keeps_parents<R: FileSystem>(
    env: WalkEnv<R::V>,
    st0: WalkState,
    cur: Inode,
    comp: Seq<u8>,
    next: Inode,
    st1: WalkState,
)
    requires
        step_rel::<R>(env, st0, cur, comp, StepOut::Next(next), st1),
        no_link_named::<R>(env.root, comp),
        tidy(st0),
        parented(st0),
        comp != parent_name(),
        comp != cur_name(),
        comp != root_name(),
    ensures
        parented(st1),
{
    let plan = step_plan::<R>(env, st0, cur, comp);
    assert(st0.nodes.contains_key(cur));
    match plan {
        StepPlan::Make { kind, name, stat, attach } => {
            let i = choose|i: Inode| #[trigger] make_ok(st0, i, plan, cur, comp, StepOut::Next(next), st1);
            assert(!st0.nodes.contains_key(i));
            assert(i != cur);
            let iv = InodeValView { stat, is_preopened: false, name, kind };
            let mid = with_inode(st0, i, iv);
            assert(mid.nodes[cur] == st0.nodes[cur]);
            assert(attach);
            assert(st1.nodes == with_entry(mid.nodes, cur, comp, i));
            assert(st1.nodes[i].kind == kind);
            assert(st0.nodes[cur].kind is Dir);
            assert(parent_in(st1.nodes, cur) == parent_in(st0.nodes, cur));
            assert forall|d: Inode, name: Seq<u8>|
                match #[trigger] entry_at(st1.nodes, d, name) {
                    Some(c) => st1.used.contains(c) && (st1.nodes.contains_key(c) && entries_of(
                        st1.nodes[c].kind,
                    ).is_some() ==> parent_in(st1.nodes, c) == Some(d)),
                    None => true,
                } by {
                if d == i {
                    assert(entry_at(st1.nodes, d, name).is_none());
                } else if d == cur && name == comp {
                    assert(entry_at(st1.nodes, d, name) == Some(i));
                } else if st1.nodes.contains_key(d) {
                    assert(st0.nodes.contains_key(d));
                    assert(entry_at(st1.nodes, d, name) == entry_at(st0.nodes, d, name));
                    match entry_at(st0.nodes, d, name) {
                        Some(c) => {
                            assert(st0.used.contains(c));
                            assert(c != i);
                            if c != cur {
                                assert(st1.nodes.contains_key(c) == st0.nodes.contains_key(c));
                                if st0.nodes.contains_key(c) {
                                    assert(st1.nodes[c] == st0.nodes[c]);
                                }
                            }
                        },
                        None => {},
                    }
                }
            }
        },
        _ => {
            assert(st1 == st0);
        },
    }
}

proof fn lemma_walk_keeps_parents<R: FileSystem>(
    env: WalkEnv<R::V>,
    st0: WalkState,
    cur: Inode,
    comps: Seq<Seq<u8>>,
    i: int,
    count: int,
    follow: bool,
    found: Inode,
    st1: WalkState,
    end: int,
)
    requires
        walk_rel::<R>(env, st0, cur, comps, i, count, follow, Ok(found), st1, end),
        no_links_from::<R>(env.root, comps, i),
        tidy(st0),
        !is_link(st0.nodes, cur),
        parented(st0),
        plain_from(comps, i),
    ensures
        parented(st1),
    decreases comps.len() - i,
{
    let res = Ok::<Inode, Errno>(found);
    assert(pending_link(st0, cur, comps.len() as int, i, follow).is_none());
    if i < comps.len() {
        let (out, stm) = choose|out: StepOut, stm: WalkState| #[trigger]
            by_step(out, stm) && step_via::<R>(
                env,
                st0,
                cur,
                comps,
                i,
                count,
                follow,
                res,
                st1,
                end,
                out,
                stm,
            );
        match out {
            StepOut::Next(c) => {
                lemma_step::<R>(env, st0, cur, comps[i], c, stm);
                lemma_step_keeps_parents::<R>(env, st0, cur, comps[i], c, stm);
                lemma_walk_keeps_parents::<R>(env, stm, c, comps, i + 1, count, follow, found, st1, end);
            },
            StepOut::Fail(e) => {},
        }
    }
}

proof fn lemma_chain_climbs(
    st: WalkState,
    cur: Inode,
    comps: Seq<Seq<u8>>,
    i: int,
    found: Inode,
)
    requires
        0 <= i <= comps.len(),
        parented(st),
        chain(st.nodes, cur, comps, i, found),
        st.nodes.contains_key(found),
        entries_of(st.nodes[found].kind).is_some(),
    ensures
        above(st.nodes, found, comps.len() - i) == Some(cur),
    decreases comps.len() - i,
{
    if i < comps.len() {
        let e = entries_of(st.nodes[cur].kind).unwrap();
        let c = e[comps[i]];
        lemma_chain_climbs(st, c, comps, i + 1, found);
        assert(entry_at(st.nodes, cur, comps[i]) == Some(c));
        assert(st.nodes.contains_key(c) && entries_of(st.nodes[c].kind).is_some()) by {
            if i + 1 < comps.len() {
            } else {
                assert(c == found);
            }
        }
        lemma_above_one_more(st.nodes, found, comps.len() - i - 1, c, cur);
    }
}

/// Prefixes lead to the directories above: in a tidy state whose entries
/// and parents agree, once the walk from an inode that is no link, along
/// names that are no links', has ended at a directory, the walk along the
/// first `k` of the names ends at the inode that stands as many parents
/// above that directory as names are left.
pub proof fn law_prefix_is_above<R: FileSystem>(
    env: WalkEnv<R::V>,
    st0: WalkState,
    base: Inode,
    comps: Seq<Seq<u8>>,
    k: int,
    count: int,
    follow: bool,
    found: Inode,
    st1: WalkState,
    end: int,
)
    requires
        0 <= k <= comps.len(),
        walk_rel::<R>(env, st0, base, comps, 0, count, follow, Ok(found), st1, end),
        no_links_from::<R>(env.root, comps, 0),
        tidy(st0),
        !is_link(st0.nodes, base),
        parented(st0),
        plain_from(comps, 0),
        st1.nodes.contains_key(found),
        entries_of(st1.nodes[found].kind).is_some(),
    ensures
        parented(st1),
        above(st1.nodes, found, comps.len() - k) == Some(node_at(st1.nodes, base, comps, 0, k)),
{
    law_prefix_is_ancestor::<R>(env, st0, base, comps, k, count, follow, found, st1, end);
    lemma_walk_keeps_parents::<R>(env, st0, base, comps, 0, count, follow, found, st1, end);
    lemma_chain_climbs(st1, node_at(st1.nodes, base, comps, 0, k), comps, k, found);
}

} // verus!
