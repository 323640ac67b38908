//! Links that lead back to themselves: a walk that follows them ends at
//! the bound on links.
use crate::errors::Errno;
use crate::errors::FsError;
use crate::path::components_of;
use crate::path::cur_name;
use crate::path::parent_name;
use crate::path::push_component;
use crate::path::root_name;
use crate::path::SEP;
use crate::state::fd::Fd;
use crate::state::fs::with_inode;
use crate::state::fs::WalkEnv;
use crate::state::fs::WalkState;
use crate::state::inodes::Inode;
use crate::state::inodes::InodeValView;
use crate::state::inodes::KindView;
use crate::state::resolve::best_preopen_upto;
use crate::state::resolve::by_link;
use crate::state::resolve::by_step;
use crate::state::resolve::law_total_bound;
use crate::state::resolve::link_start;
use crate::state::resolve::link_via;
use crate::state::resolve::make_ok;
use crate::state::resolve::pending_link;
use crate::state::resolve::popped;
use crate::state::resolve::preopen_match;
use crate::state::resolve::preopen_path;
use crate::state::resolve::resolve_rel;
use crate::state::resolve::step_plan;
use crate::state::resolve::step_rel;
use crate::state::resolve::step_via;
use crate::state::resolve::walk_rel;
use crate::state::resolve::StepOut;
use crate::state::resolve::StepPlan;
use crate::state::types::MAX_SYMLINKS;
use crate::vfs::FileSystem;
use crate::vfs::FileType;
use vstd::prelude::*;

verus! {

/// Whether every inode of a state is in use.
pub open spec fn kept(st: WalkState) -> bool {
    forall|i: Inode| #[trigger] st.nodes.contains_key(i) ==> st.used.contains(i)
}

/// Whether the name `x` in the directory `d` is a link to the name `y` in
/// the same directory: the directory has no entry of the name `x` yet, the
/// root filesystem has a link there whose target is `y`, and the link lies
/// in a preopened directory that is `d` itself, so that the walk to the
/// target starts at `d` and takes the one component `y`.
pub open spec fn link_between<R: FileSystem>(
    env: WalkEnv<R::V>,
    st: WalkState,
    d: Inode,
    x: Seq<u8>,
    y: Seq<u8>,
) -> bool {
    &&& st.nodes.contains_key(d)
    &&& x != parent_name() && x != cur_name() && x != root_name()
    &&& y.len() > 0 && y[0] != SEP
    &&& match st.nodes[d].kind {
        KindView::Dir { parent, path, entries } => {
            let file = push_component(path, x);
            &&& !entries.contains_key(x)
            &&& match R::symlink_metadata_spec(env.root, file) {
                Ok(md) => md.ft == FileType::Symlink,
                Err(_) => false,
            }
            &&& R::read_link_spec(env.root, file) == Ok::<Seq<u8>, FsError>(y)
            &&& match preopen_match(env.fds, env.preopens, st.nodes, file) {
                Ok(m) => {
                    &&& env.fds.contains_key(m.0)
                    &&& env.fds[m.0].inode == d
                    &&& R::symlink_metadata_spec(env.root, push_component(path, m.1)).is_ok()
                    &&& components_of(push_component(popped(m.1), y)) == seq![y]
                },
                Err(_) => false,
            }
        },
        _ => false,
    }
}

proof fn lemma_preopens_stay(
    fds: Map<u32, Fd>,
    preopens: Seq<u32>,
    nodes: Map<Inode, InodeValView>,
    n: Inode,
    iv: InodeValView,
    path: Seq<u8>,
    k: int,
)
    requires
        !nodes.contains_key(n),
        best_preopen_upto(fds, preopens, nodes, path, k).is_ok(),
    ensures
        best_preopen_upto(fds, preopens, nodes.insert(n, iv), path, k) == best_preopen_upto(
            fds,
            preopens,
            nodes,
            path,
            k,
        ),
    decreases k,
{
    if k > 0 {
        lemma_preopens_stay(fds, preopens, nodes, n, iv, path, k - 1);
        assert(preopen_path(fds, nodes, preopens[k - 1]).is_ok());
        assert(preopen_path(fds, nodes.insert(n, iv), preopens[k - 1]) == preopen_path(
            fds,
            nodes,
            preopens[k - 1],
        ));
    }
}

proof fn lemma_link_stays<R: FileSystem>(
    env: WalkEnv<R::V>,
    st: WalkState,
    d: Inode,
    x: Seq<u8>,
    y: Seq<u8>,
    n: Inode,
    iv: InodeValView,
)
    requires
        link_between::<R>(env, st, d, x, y),
        kept(st),
        !st.used.contains(n),
    ensures
        link_between::<R>(env, with_inode(st, n, iv), d, x, y),
        kept(with_inode(st, n, iv)),
{
    let stm = with_inode(st, n, iv);
    let put = InodeValView { stat: crate::state::types::Filestat { st_ino: st.counter, ..iv.stat }, ..iv };
    assert(stm.nodes == st.nodes.insert(n, put));
    assert(!st.nodes.contains_key(n));
    assert(stm.nodes[d] == st.nodes[d]);
    match st.nodes[d].kind {
        KindView::Dir { parent, path, entries } => {
            let file = push_component(path, x);
            lemma_preopens_stay(
                env.fds,
                env.preopens,
                st.nodes,
                n,
                put,
                file,
                env.preopens.len() as int,
            );
        },
        _ => {},
    }
}

/// A step onto a link: from the directory over the name of a link the walk
/// comes to a new inode that is that link, and the walk to the link's
/// target starts at the directory again.
proof fn lemma_step_onto_link<R: FileSystem>(
    env: WalkEnv<R::V>,
    st: WalkState,
    d: Inode,
    x: Seq<u8>,
    y: Seq<u8>,
    out: StepOut,
    stm: WalkState,
) -> (r: (Inode, InodeValView))
    requires
        link_between::<R>(env, st, d, x, y),
        kept(st),
        step_rel::<R>(env, st, d, x, out, stm),
    ensures
        out == StepOut::Next(r.0),
        !st.used.contains(r.0),
        stm == with_inode(st, r.0, r.1),
        stm.nodes.contains_key(r.0),
        match stm.nodes[r.0].kind {
            KindView::Symlink { base_po_dir, path_to_symlink, relative_path } => {
                &&& relative_path == y
                &&& link_start(
                    env.fds,
                    env.preopens,
                    stm.nodes,
                    base_po_dir,
                    path_to_symlink,
                    relative_path,
                ) == Ok::<(Inode, Seq<u8>), Errno>((d, push_component(popped(path_to_symlink), y)))
                &&& components_of(push_component(popped(path_to_symlink), y)) == seq![y]
            },
            _ => false,
        },
{
    let plan = step_plan::<R>(env, st, d, x);
    match plan {
        StepPlan::Make { kind, name, stat, attach } => {
            assert(!attach);
            let n = choose|n: Inode| #[trigger] make_ok(st, n, plan, d, x, out, stm);
            let iv = InodeValView { stat, is_preopened: false, name, kind };
            assert(stm == with_inode(st, n, iv));
            (n, iv)
        },
        _ => {
            assert(false);
            arbitrary()
        },
    }
}

proof fn lemma_circle<R: FileSystem>(
    env: WalkEnv<R::V>,
    st: WalkState,
    d: Inode,
    x: Seq<u8>,
    y: Seq<u8>,
    count: int,
    res: Result<Inode, Errno>,
    st1: WalkState,
    end: int,
)
    requires
        link_between::<R>(env, st, d, x, y),
        link_between::<R>(env, st, d, y, x),
        kept(st),
        walk_rel::<R>(env, st, d, seq![x], 0, count, true, res, st1, end),
    ensures
        res == Err::<Inode, Errno>(Errno::Mlink),
    decreases MAX_SYMLINKS - count,
{
    let comps = seq![x];
    assert(comps.len() == 1 && comps[0] == x);
    assert(pending_link(st, d, 1, 0, true).is_none());
    let (out, stm) = choose|out: StepOut, stm: WalkState| #[trigger]
        by_step(out, stm) && step_via::<R>(env, st, d, comps, 0, count, true, res, st1, end, out, stm);
    let made = lemma_step_onto_link::<R>(env, st, d, x, y, out, stm);
    let n = made.0;
    lemma_link_stays::<R>(env, st, d, x, y, n, made.1);
    lemma_link_stays::<R>(env, st, d, y, x, n, made.1);
    assert(walk_rel::<R>(env, stm, n, comps, 1, count, true, res, st1, end));
    match stm.nodes[n].kind {
        KindView::Symlink { base_po_dir, path_to_symlink, relative_path } => {
            assert(pending_link(stm, n, 1, 1, true) == Some(
                (base_po_dir, path_to_symlink, relative_path),
            ));
            if count < MAX_SYMLINKS {
                let start = (d, push_component(popped(path_to_symlink), y));
                let (r, stm2, mid) = choose|r: Result<Inode, Errno>, stm2: WalkState, mid: int| #[trigger]
                    by_link(r, stm2, mid) && link_via::<R>(
                        env,
                        stm,
                        start,
                        comps,
                        1,
                        count,
                        true,
                        res,
                        st1,
                        end,
                        r,
                        stm2,
                        mid,
                    );
                assert(resolve_rel::<R>(env, stm, d, start.1, count + 1, true, r, stm2, mid));
                assert(components_of(start.1) == seq![y]);
                lemma_circle::<R>(env, stm, d, y, x, count + 1, r, stm2, mid);
            }
        },
        _ => {},
    }
}

/// Links in a circle: where in a directory the name `a` is a link to the
/// name `b` and the name `b` a link to the name `a`, resolving a path that
/// is the one component `a` from that directory, with links followed, ends
/// with `Mlink`, after no more than `MAX_SYMLINKS` targets were put in the
/// place of links. With `a` and `b` the same name, this is a link to
/// itself.
pub proof fn law_links_in_a_circle<R: FileSystem>(
    env: WalkEnv<R::V>,
    st0: WalkState,
    d: Inode,
    a: Seq<u8>,
    b: Seq<u8>,
    path: Seq<u8>,
    res: Result<Inode, Errno>,
    st1: WalkState,
    end: int,
)
    requires
        link_between::<R>(env, st0, d, a, b),
        link_between::<R>(env, st0, d, b, a),
        kept(st0),
        components_of(path) == seq![a],
        resolve_rel::<R>(env, st0, d, path, 0, true, res, st1, end),
    ensures
        res == Err::<Inode, Errno>(Errno::Mlink),
        0 <= end <= MAX_SYMLINKS,
{
    lemma_circle::<R>(env, st0, d, a, b, 0, res, st1, end);
    law_total_bound::<R>(env, st0, d, seq![a], 0, 0, true, res, st1, end);
}

} // verus!
