//! Laws of the reconcilers, proved from their specifications.
//!
//! These proof functions state the guarantees a caller may rely on across
//! runs: what the timestamp policy does to a file, alone
//! (`lemma_fresh_file_untouched`, `lemma_stale_file_overwritten`, which also
//! pin the exact actions) and among arbitrary siblings
//! (`lemma_file_policy_among_siblings`); how read-only destination files
//! are replaced; that after any successful copy run every source node is
//! mirrored up to date (`lemma_copy_satisfies_source`); which kinds of
//! action each phase may emit -- the copy phase never emits a plain
//! removal and pairs each read-only removal with its copy, the prune phase
//! emits removals only (`lemma_copy_actions_kinds`,
//! `lemma_prune_actions_kinds`); that pruning removes exactly the entries
//! with no source counterpart (`lemma_prune_policy`); that a second copy
//! run changes nothing and copies nothing (`lemma_copy_idempotent`); that a
//! copy followed by a prune over any destination keeps every source node
//! mirrored and leaves only entries with a source counterpart
//! (`lemma_copy_then_prune`); and that a copy into an empty destination
//! followed by a prune leaves an exact mirror of the source
//! (`lemma_fresh_sync`).

use vstd::prelude::*;

use crate::copy::{
    copy_from_spec, copy_node_spec, copy_spec, find_entry, join, lemma_find_from_complete,
    lemma_find_from_props, lemma_find_stable, ActionView, SyncErrorView,
};
use crate::prune::{
    contains_name, find_dir, lemma_find_dir_from_props, prune_entry_spec, prune_from_spec,
    prune_spec,
};
use crate::tree::{lemma_all_nodes_wf_index, node_wf, nodes_wf, EntryView, NodeView};

verus! {

/// Timestamp policy, skip half: a source file whose destination counterpart
/// has an equal or later modification time leaves the destination untouched
/// and produces only a skip notice -- nothing is copied.
pub proof fn lemma_fresh_file_untouched(
    name: Seq<char>,
    path: Seq<char>,
    mtime: u64,
    dest: Seq<EntryView>,
    dpath: Seq<char>,
    i: int,
)
    requires
        find_entry(dest, name) == Some(i),
        0 <= i < dest.len(),
        dest[i].mtime() >= mtime,
    ensures
        copy_spec(seq![NodeView::File { name, path, mtime }], dest, dpath) == Ok::<
            (Seq<EntryView>, Seq<ActionView>),
            SyncErrorView,
        >((dest, seq![ActionView::SkipUpToDate { dest: join(dpath, name) }])),
{
    let s = seq![NodeView::File { name, path, mtime }];
    let skip = seq![ActionView::SkipUpToDate { dest: join(dpath, name) }];
    assert(copy_node_spec(s[0], dest, dpath) == Ok::<_, SyncErrorView>((dest, skip)));
    assert(copy_from_spec(s, 1, dest, dpath) == Ok::<_, SyncErrorView>(
        (dest, Seq::<ActionView>::empty()),
    ));
    assert(skip + Seq::<ActionView>::empty() =~= skip);
    assert(copy_from_spec(s, 0, dest, dpath) == Ok::<_, SyncErrorView>((dest, skip)));
}

/// Timestamp policy, overwrite half, and the read-only rule: a source file
/// strictly newer than the destination file in its place overwrites it; a
/// read-only destination file is removed first. Either way the destination
/// entry becomes a fresh, writable file carrying the source's modification
/// time.
pub proof fn lemma_stale_file_overwritten(
    name: Seq<char>,
    path: Seq<char>,
    mtime: u64,
    dest: Seq<EntryView>,
    dpath: Seq<char>,
    i: int,
)
    requires
        find_entry(dest, name) == Some(i),
        0 <= i < dest.len(),
        dest[i] matches EntryView::File { .. },
        dest[i].mtime() < mtime,
    ensures
        dest[i] matches EntryView::File { readonly: false, .. } ==> copy_spec(
            seq![NodeView::File { name, path, mtime }],
            dest,
            dpath,
        ) == Ok::<(Seq<EntryView>, Seq<ActionView>), SyncErrorView>(
            (
                dest.update(i, EntryView::File { name, mtime, readonly: false }),
                seq![ActionView::CopyFile { src: path, dest: join(dpath, name) }],
            ),
        ),
        dest[i] matches EntryView::File { readonly: true, .. } ==> copy_spec(
            seq![NodeView::File { name, path, mtime }],
            dest,
            dpath,
        ) == Ok::<(Seq<EntryView>, Seq<ActionView>), SyncErrorView>(
            (
                dest.update(i, EntryView::File { name, mtime, readonly: false }),
                seq![
                    ActionView::RemoveReadonly { dest: join(dpath, name) },
                    ActionView::CopyFile { src: path, dest: join(dpath, name) },
                ],
            ),
        ),
{
    let s = seq![NodeView::File { name, path, mtime }];
    lemma_find_from_props(dest, name, 0);
    match copy_node_spec(s[0], dest, dpath) {
        Ok(p) => {
            assert(copy_from_spec(s, 1, p.0, dpath) == Ok::<_, SyncErrorView>(
                (p.0, Seq::<ActionView>::empty()),
            ));
            assert(p.1 + Seq::<ActionView>::empty() =~= p.1);
            assert(copy_from_spec(s, 0, dest, dpath) == Ok::<_, SyncErrorView>((p.0, p.1)));
        },
        Err(_) => {
            assert(false);
        },
    }
}

/// Every action in the sequence is a skip notice: nothing is copied,
/// created or removed.
pub open spec fn all_skips(a: Seq<ActionView>) -> bool {
    forall|k: int| 0 <= k < a.len() ==> (#[trigger] a[k]) is SkipUpToDate
}

/// The destination already reflects the source node: its counterpart is
/// present and up to date, recursively for directories. (A destination file
/// in the place of an empty source directory also counts, as the copy policy
/// leaves that mismatch alone.)
pub open spec fn node_satisfied(n: NodeView, dest: Seq<EntryView>) -> bool
    decreases n, 0int,
{
    match n {
        NodeView::File { name, mtime, .. } => match find_entry(dest, name) {
            Some(i) => dest[i].mtime() >= mtime,
            None => false,
        },
        NodeView::Directory { name, children, .. } => match find_entry(dest, name) {
            Some(i) => match dest[i] {
                EntryView::Dir { entries, .. } => sats_from(children, entries, 0),
                EntryView::File { .. } => children.len() == 0,
            },
            None => false,
        },
    }
}

/// The destination reflects every source node in `src[i..]`.
pub open spec fn sats_from(src: Seq<NodeView>, dest: Seq<EntryView>, i: int) -> bool
    decreases src, src.len() - i,
{
    if i < 0 || i >= src.len() {
        true
    } else {
        node_satisfied(src[i], dest) && sats_from(src, dest, i + 1)
    }
}

/// A copy step keeps every entry's position and name; it only rewrites
/// entries bearing the processed node's name, and appends only such entries.
proof fn lemma_copy_node_names(m: NodeView, dest: Seq<EntryView>, dpath: Seq<char>)
    requires
        copy_node_spec(m, dest, dpath) is Ok,
    ensures
        copy_node_spec(m, dest, dpath)->Ok_0.0.len() >= dest.len(),
        forall|k: int|
            0 <= k < dest.len() ==> (#[trigger] copy_node_spec(m, dest, dpath)->Ok_0.0[k]).name()
                == dest[k].name(),
        forall|k: int|
            0 <= k < dest.len() && dest[k].name() != m.name() ==> #[trigger] copy_node_spec(
                m,
                dest,
                dpath,
            )->Ok_0.0[k] == dest[k],
        forall|k: int|
            dest.len() <= k < copy_node_spec(m, dest, dpath)->Ok_0.0.len() ==> (
            #[trigger] copy_node_spec(m, dest, dpath)->Ok_0.0[k]).name() == m.name(),
{
    lemma_find_from_props(dest, m.name(), 0);
}

/// A copy step for a node of another name does not disturb a satisfied node.
proof fn lemma_step_preserves_satisfied(
    n: NodeView,
    m: NodeView,
    dest: Seq<EntryView>,
    dpath: Seq<char>,
)
    requires
        node_satisfied(n, dest),
        copy_node_spec(m, dest, dpath) is Ok,
        m.name() != n.name(),
    ensures
        node_satisfied(n, copy_node_spec(m, dest, dpath)->Ok_0.0),
{
    let d2 = copy_node_spec(m, dest, dpath)->Ok_0.0;
    lemma_copy_node_names(m, dest, dpath);
    lemma_find_from_props(dest, n.name(), 0);
    lemma_find_stable(dest, d2, n.name());
    match find_entry(dest, n.name()) {
        Some(i) => {
            assert(dest[i].name() == n.name());
            assert(d2[i] == dest[i]);
        },
        None => {
            assert(false);
        },
    }
}

/// A copy run over nodes of other names does not disturb a satisfied node.
proof fn lemma_run_preserves_satisfied(
    n: NodeView,
    src: Seq<NodeView>,
    i: int,
    dest: Seq<EntryView>,
    dpath: Seq<char>,
)
    requires
        node_satisfied(n, dest),
        0 <= i <= src.len(),
        copy_from_spec(src, i, dest, dpath) is Ok,
        forall|j: int| i <= j < src.len() ==> (#[trigger] src[j]).name() != n.name(),
    ensures
        node_satisfied(n, copy_from_spec(src, i, dest, dpath)->Ok_0.0),
    decreases src.len() - i,
{
    if i < src.len() {
        lemma_step_preserves_satisfied(n, src[i], dest, dpath);
        lemma_run_preserves_satisfied(
            n,
            src,
            i + 1,
            copy_node_spec(src[i], dest, dpath)->Ok_0.0,
            dpath,
        );
    }
}

/// After a successful copy step the processed node is satisfied.
proof fn lemma_copy_node_satisfies(n: NodeView, dest: Seq<EntryView>, dpath: Seq<char>)
    requires
        node_wf(n),
        copy_node_spec(n, dest, dpath) is Ok,
    ensures
        node_satisfied(n, copy_node_spec(n, dest, dpath)->Ok_0.0),
    decreases n, 0int,
{
    lemma_find_from_props(dest, n.name(), 0);
    match n {
        NodeView::File { name, path, mtime } => {
            match find_entry(dest, name) {
                Some(i) => {
                    if mtime > dest[i].mtime() {
                        let upd = dest.update(
                            i,
                            EntryView::File { name, mtime, readonly: false },
                        );
                        lemma_find_stable(dest, upd, name);
                    }
                },
                None => {
                    let d2 = dest.push(EntryView::File { name, mtime, readonly: false });
                    lemma_find_from_complete(d2, name, 0, dest.len() as int);
                },
            }
        },
        NodeView::Directory { name, path, mtime, children } => {
            let target = join(dpath, name);
            match find_entry(dest, name) {
                Some(i) => {
                    match dest[i] {
                        EntryView::Dir { name: en, mtime: em, entries } => {
                            lemma_copy_from_satisfies(children, 0, entries, target);
                            let sub = copy_from_spec(children, 0, entries, target)->Ok_0.0;
                            let upd = dest.update(
                                i,
                                EntryView::Dir { name: en, mtime: em, entries: sub },
                            );
                            lemma_find_stable(dest, upd, name);
                        },
                        EntryView::File { .. } => {},
                    }
                },
                None => {
                    lemma_copy_from_satisfies(children, 0, Seq::empty(), target);
                    let sub = copy_from_spec(children, 0, Seq::empty(), target)->Ok_0.0;
                    let d2 = dest.push(EntryView::Dir { name, mtime, entries: sub });
                    lemma_find_from_complete(d2, name, 0, dest.len() as int);
                },
            }
        },
    }
}

/// After a successful copy run every processed node is satisfied.
proof fn lemma_copy_from_satisfies(
    src: Seq<NodeView>,
    i: int,
    dest: Seq<EntryView>,
    dpath: Seq<char>,
)
    requires
        nodes_wf(src),
        0 <= i <= src.len(),
        copy_from_spec(src, i, dest, dpath) is Ok,
    ensures
        sats_from(src, copy_from_spec(src, i, dest, dpath)->Ok_0.0, i),
    decreases src, src.len() - i,
{
    if i < src.len() {
        lemma_all_nodes_wf_index(src, i);
        let d1 = copy_node_spec(src[i], dest, dpath)->Ok_0.0;
        lemma_copy_node_satisfies(src[i], dest, dpath);
        lemma_copy_from_satisfies(src, i + 1, d1, dpath);
        lemma_run_preserves_satisfied(src[i], src, i + 1, d1, dpath);
    }
}

/// A copy step for a satisfied node changes nothing and only skips.
proof fn lemma_satisfied_node_noop(n: NodeView, dest: Seq<EntryView>, dpath: Seq<char>)
    requires
        node_satisfied(n, dest),
    ensures
        copy_node_spec(n, dest, dpath) matches Ok(p) && p.0 == dest && all_skips(p.1),
    decreases n, 0int,
{
    lemma_find_from_props(dest, n.name(), 0);
    match n {
        NodeView::File { name, path, mtime } => {
            let skip = seq![ActionView::SkipUpToDate { dest: join(dpath, name) }];
            assert(skip[0] is SkipUpToDate);
        },
        NodeView::Directory { name, path, mtime, children } => {
            let target = join(dpath, name);
            match find_entry(dest, name) {
                Some(i) => {
                    match dest[i] {
                        EntryView::Dir { name: en, mtime: em, entries } => {
                            lemma_satisfied_run_noop(children, 0, entries, target);
                            assert(dest.update(
                                i,
                                EntryView::Dir { name: en, mtime: em, entries },
                            ) =~= dest);
                        },
                        EntryView::File { .. } => {},
                    }
                },
                None => {
                    assert(false);
                },
            }
        },
    }
}

/// A copy run over satisfied nodes changes nothing and only skips.
proof fn lemma_satisfied_run_noop(
    src: Seq<NodeView>,
    i: int,
    dest: Seq<EntryView>,
    dpath: Seq<char>,
)
    requires
        0 <= i <= src.len(),
        sats_from(src, dest, i),
    ensures
        copy_from_spec(src, i, dest, dpath) matches Ok(p) && p.0 == dest && all_skips(p.1),
    decreases src, src.len() - i,
{
    if i < src.len() {
        lemma_satisfied_node_noop(src[i], dest, dpath);
        lemma_satisfied_run_noop(src, i + 1, dest, dpath);
        let a1 = copy_node_spec(src[i], dest, dpath)->Ok_0.1;
        let a2 = copy_from_spec(src, i + 1, dest, dpath)->Ok_0.1;
        assert forall|k: int| 0 <= k < (a1 + a2).len() implies (#[trigger] (a1 + a2)[k])
            is SkipUpToDate by {
            if k < a1.len() {
                assert((a1 + a2)[k] == a1[k]);
            } else {
                assert((a1 + a2)[k] == a2[k - a1.len()]);
            }
        }
    }
}

/// Copy-phase mirror guarantee: after a successful copy run, every source
/// node is present and up to date in the resulting destination, recursively
/// -- each file by modification time, each directory by its reconciled
/// contents. This is the copy policy's promise on its own, without pruning.
pub proof fn lemma_copy_satisfies_source(src: Seq<NodeView>, dest: Seq<EntryView>, dpath: Seq<char>)
    requires
        nodes_wf(src),
        copy_spec(src, dest, dpath) is Ok,
    ensures
        sats_from(src, copy_spec(src, dest, dpath)->Ok_0.0, 0),
{
    lemma_copy_from_satisfies(src, 0, dest, dpath);
}

/// A copy run over nodes of other names neither moves nor rewrites the
/// first entry of the given name, and adds no entry of that name.
proof fn lemma_run_preserves_entry(
    src: Seq<NodeView>,
    i: int,
    dest: Seq<EntryView>,
    dpath: Seq<char>,
    name: Seq<char>,
)
    requires
        0 <= i <= src.len(),
        copy_from_spec(src, i, dest, dpath) is Ok,
        forall|j: int| i <= j < src.len() ==> (#[trigger] src[j]).name() != name,
    ensures
        find_entry(copy_from_spec(src, i, dest, dpath)->Ok_0.0, name) == find_entry(dest, name),
        match find_entry(dest, name) {
            Some(ix) => copy_from_spec(src, i, dest, dpath)->Ok_0.0[ix] == dest[ix],
            None => true,
        },
    decreases src.len() - i,
{
    if i < src.len() {
        let d1 = copy_node_spec(src[i], dest, dpath)->Ok_0.0;
        lemma_copy_node_names(src[i], dest, dpath);
        lemma_find_stable(dest, d1, name);
        lemma_find_from_props(dest, name, 0);
        lemma_run_preserves_entry(src, i + 1, d1, dpath, name);
    }
}

/// `lemma_file_policy_among_siblings`, generalized over the run's start.
proof fn lemma_file_policy_from(
    src: Seq<NodeView>,
    i: int,
    k: int,
    dest: Seq<EntryView>,
    dpath: Seq<char>,
)
    requires
        nodes_wf(src),
        0 <= i <= k < src.len(),
        src[k] matches NodeView::File { .. },
        copy_from_spec(src, i, dest, dpath) is Ok,
    ensures
        ({
            let name = src[k].name();
            let m = src[k].mtime();
            let d2 = copy_from_spec(src, i, dest, dpath)->Ok_0.0;
            match find_entry(dest, name) {
                Some(ix) => find_entry(d2, name) == Some(ix) && (dest[ix].mtime() >= m ==> d2[ix]
                    == dest[ix]) && (dest[ix].mtime() < m ==> d2[ix] == EntryView::File {
                    name,
                    mtime: m,
                    readonly: false,
                }),
                None => (match find_entry(d2, name) {
                    Some(i2) => d2[i2] == EntryView::File { name, mtime: m, readonly: false },
                    None => false,
                }),
            }
        }),
    decreases k - i,
{
    let name = src[k].name();
    let m = src[k].mtime();
    lemma_find_from_props(dest, name, 0);
    if i == k {
        let dk1 = copy_node_spec(src[k], dest, dpath)->Ok_0.0;
        match find_entry(dest, name) {
            Some(ix) => {
                if m > dest[ix].mtime() {
                    let upd = dest.update(
                        ix,
                        EntryView::File { name, mtime: m, readonly: false },
                    );
                    lemma_find_stable(dest, upd, name);
                }
            },
            None => {
                let pushed = dest.push(EntryView::File { name, mtime: m, readonly: false });
                lemma_find_from_complete(pushed, name, 0, dest.len() as int);
            },
        }
        lemma_run_preserves_entry(src, k + 1, dk1, dpath, name);
    } else {
        let d1 = copy_node_spec(src[i], dest, dpath)->Ok_0.0;
        lemma_copy_node_names(src[i], dest, dpath);
        lemma_find_stable(dest, d1, name);
        lemma_file_policy_from(src, i + 1, k, d1, dpath);
    }
}

/// Timestamp and read-only policy among arbitrary siblings: in a successful
/// copy run over a well-formed source, the destination entry bearing a
/// source file's name keeps its position, and it alone decides the file's
/// fate. An entry with an equal or later modification time is left exactly
/// as it was -- a tie counts as up to date; a stale entry, read-only or
/// not, ends as a fresh writable file carrying the source's modification
/// time; a missing entry appears as that same fresh file.
pub proof fn lemma_file_policy_among_siblings(
    src: Seq<NodeView>,
    k: int,
    dest: Seq<EntryView>,
    dpath: Seq<char>,
)
    requires
        nodes_wf(src),
        0 <= k < src.len(),
        src[k] matches NodeView::File { .. },
        copy_spec(src, dest, dpath) is Ok,
    ensures
        ({
            let name = src[k].name();
            let m = src[k].mtime();
            let d1 = copy_spec(src, dest, dpath)->Ok_0.0;
            match find_entry(dest, name) {
                Some(ix) => find_entry(d1, name) == Some(ix) && (dest[ix].mtime() >= m ==> d1[ix]
                    == dest[ix]) && (dest[ix].mtime() < m ==> d1[ix] == EntryView::File {
                    name,
                    mtime: m,
                    readonly: false,
                }),
                None => (match find_entry(d1, name) {
                    Some(i2) => d1[i2] == EntryView::File { name, mtime: m, readonly: false },
                    None => false,
                }),
            }
        }),
{
    lemma_file_policy_from(src, 0, k, dest, dpath);
}

/// An action the copy phase may emit: a copy, a directory creation, a skip
/// notice, or the removal of a read-only file about to be overwritten. The
/// copy phase never emits a plain removal.
pub open spec fn copy_phase_action(a: ActionView) -> bool {
    a is CopyFile || a is CreateDir || a is SkipUpToDate || a is RemoveReadonly
}

/// Every read-only removal is immediately followed by the copy that
/// replaces the removed file, at the same destination path.
pub open spec fn removals_precede_copies(a: Seq<ActionView>) -> bool {
    forall|k: int|
        0 <= k < a.len() ==> ((#[trigger] a[k]) matches ActionView::RemoveReadonly { dest } ==> (k
            + 1 < a.len() && (a[k + 1] matches ActionView::CopyFile { dest: d2, .. } && d2
            == dest)))
}

/// The inductive shape of a copy phase's action list: only copy-phase
/// actions, read-only removals paired with their copies, and never a
/// read-only removal as the final action.
spec fn copy_actions_wf(a: Seq<ActionView>) -> bool {
    (forall|k: int| 0 <= k < a.len() ==> copy_phase_action(#[trigger] a[k]))
        && removals_precede_copies(a) && (a.len() > 0 ==> !(a[a.len() - 1] is RemoveReadonly))
}

proof fn lemma_copy_actions_wf_concat(a: Seq<ActionView>, b: Seq<ActionView>)
    requires
        copy_actions_wf(a),
        copy_actions_wf(b),
    ensures
        copy_actions_wf(a + b),
{
    assert forall|k: int| 0 <= k < (a + b).len() implies copy_phase_action(
        #[trigger] (a + b)[k],
    ) by {
        if k < a.len() {
            assert((a + b)[k] == a[k]);
        } else {
            assert((a + b)[k] == b[k - a.len()]);
        }
    }
    assert forall|k: int|
        0 <= k < (a + b).len() implies ((#[trigger] (a + b)[k]) matches ActionView::RemoveReadonly {
        dest,
    } ==> (k + 1 < (a + b).len() && ((a + b)[k + 1] matches ActionView::CopyFile {
        dest: d2,
        ..
    } && d2 == dest))) by {
        if k < a.len() {
            assert((a + b)[k] == a[k]);
            if a[k] is RemoveReadonly {
                assert(k < a.len() - 1);
                assert((a + b)[k + 1] == a[k + 1]);
            }
        } else {
            assert((a + b)[k] == b[k - a.len()]);
            if b[k - a.len()] is RemoveReadonly {
                assert((a + b)[k + 1] == b[k - a.len() + 1]);
            }
        }
    }
    if (a + b).len() > 0 {
        if b.len() > 0 {
            assert((a + b)[(a + b).len() - 1] == b[b.len() - 1]);
        } else {
            assert((a + b)[(a + b).len() - 1] == a[a.len() - 1]);
        }
    }
}

proof fn lemma_copy_node_actions(n: NodeView, dest: Seq<EntryView>, dpath: Seq<char>)
    requires
        copy_node_spec(n, dest, dpath) is Ok,
    ensures
        copy_actions_wf(copy_node_spec(n, dest, dpath)->Ok_0.1),
    decreases n, 0int,
{
    lemma_find_from_props(dest, n.name(), 0);
    match n {
        NodeView::File { name, path, mtime } => {},
        NodeView::Directory { name, path, mtime, children } => {
            let target = join(dpath, name);
            match find_entry(dest, name) {
                Some(i) => {
                    match dest[i] {
                        EntryView::Dir { entries, .. } => {
                            lemma_copy_from_actions(children, 0, entries, target);
                        },
                        EntryView::File { .. } => {},
                    }
                },
                None => {
                    lemma_copy_from_actions(children, 0, Seq::empty(), target);
                    let create = seq![ActionView::CreateDir { dest: target }];
                    assert(copy_actions_wf(create));
                    lemma_copy_actions_wf_concat(
                        create,
                        copy_from_spec(children, 0, Seq::empty(), target)->Ok_0.1,
                    );
                },
            }
        },
    }
}

proof fn lemma_copy_from_actions(src: Seq<NodeView>, i: int, dest: Seq<EntryView>, dpath: Seq<char>)
    requires
        0 <= i <= src.len(),
        copy_from_spec(src, i, dest, dpath) is Ok,
    ensures
        copy_actions_wf(copy_from_spec(src, i, dest, dpath)->Ok_0.1),
    decreases src, src.len() - i,
{
    if i < src.len() {
        lemma_copy_node_actions(src[i], dest, dpath);
        let d1 = copy_node_spec(src[i], dest, dpath)->Ok_0.0;
        lemma_copy_from_actions(src, i + 1, d1, dpath);
        lemma_copy_actions_wf_concat(
            copy_node_spec(src[i], dest, dpath)->Ok_0.1,
            copy_from_spec(src, i + 1, d1, dpath)->Ok_0.1,
        );
    }
}

/// The copy phase emits only copies, directory creations, skip notices and
/// read-only removals -- never a plain removal -- and every read-only
/// removal is immediately followed by the copy replacing the removed file.
pub proof fn lemma_copy_actions_kinds(src: Seq<NodeView>, dest: Seq<EntryView>, dpath: Seq<char>)
    requires
        copy_spec(src, dest, dpath) is Ok,
    ensures
        forall|k: int|
            0 <= k < copy_spec(src, dest, dpath)->Ok_0.1.len() ==> copy_phase_action(
                #[trigger] copy_spec(src, dest, dpath)->Ok_0.1[k],
            ),
        removals_precede_copies(copy_spec(src, dest, dpath)->Ok_0.1),
{
    lemma_copy_from_actions(src, 0, dest, dpath);
}

/// An action the prune phase may emit: a file or directory removal. The
/// prune phase never copies, creates or skips.
pub open spec fn prune_phase_action(a: ActionView) -> bool {
    a is RemoveFile || a is RemoveDir
}

proof fn lemma_prune_entry_actions(src: Seq<NodeView>, e: EntryView, dpath: Seq<char>)
    ensures
        forall|k: int|
            0 <= k < prune_entry_spec(src, e, dpath).1.len() ==> prune_phase_action(
                #[trigger] prune_entry_spec(src, e, dpath).1[k],
            ),
    decreases e, 0int,
{
    if contains_name(src, e.name()) {
        match e {
            EntryView::Dir { name, mtime, entries } => {
                match find_dir(src, name) {
                    Some(j) => {
                        match src[j] {
                            NodeView::Directory { children, .. } => {
                                lemma_prune_from_actions(
                                    children,
                                    entries,
                                    0,
                                    join(dpath, e.name()),
                                );
                                assert(prune_entry_spec(src, e, dpath).1 == prune_from_spec(
                                    children,
                                    entries,
                                    0,
                                    join(dpath, e.name()),
                                ).1);
                            },
                            NodeView::File { .. } => {},
                        }
                    },
                    None => {},
                }
            },
            EntryView::File { .. } => {},
        }
    } else {
        let a = prune_entry_spec(src, e, dpath).1;
        assert(a.len() == 1);
        assert(prune_phase_action(a[0]));
    }
}

proof fn lemma_prune_from_actions(
    src: Seq<NodeView>,
    dest: Seq<EntryView>,
    i: int,
    dpath: Seq<char>,
)
    requires
        0 <= i <= dest.len(),
    ensures
        forall|k: int|
            0 <= k < prune_from_spec(src, dest, i, dpath).1.len() ==> prune_phase_action(
                #[trigger] prune_from_spec(src, dest, i, dpath).1[k],
            ),
    decreases dest, dest.len() - i,
{
    if i < dest.len() {
        lemma_prune_entry_actions(src, dest[i], dpath);
        lemma_prune_from_actions(src, dest, i + 1, dpath);
        let a1 = prune_entry_spec(src, dest[i], dpath).1;
        let a2 = prune_from_spec(src, dest, i + 1, dpath).1;
        assert forall|k: int| 0 <= k < (a1 + a2).len() implies prune_phase_action(
            #[trigger] (a1 + a2)[k],
        ) by {
            if k < a1.len() {
                assert((a1 + a2)[k] == a1[k]);
            } else {
                assert((a1 + a2)[k] == a2[k - a1.len()]);
            }
        }
    }
}

/// The prune phase emits only file and directory removals.
pub proof fn lemma_prune_actions_kinds(src: Seq<NodeView>, dest: Seq<EntryView>, dpath: Seq<char>)
    ensures
        forall|k: int|
            0 <= k < prune_spec(src, dest, dpath).1.len() ==> prune_phase_action(
                #[trigger] prune_spec(src, dest, dpath).1[k],
            ),
{
    lemma_prune_from_actions(src, dest, 0, dpath);
}

/// Idempotence: a second copy run over an unchanged source, against the
/// destination the first run produced, changes nothing and performs no file
/// copy -- every action it emits is a skip notice.
pub proof fn lemma_copy_idempotent(src: Seq<NodeView>, dest: Seq<EntryView>, dpath: Seq<char>)
    requires
        nodes_wf(src),
        copy_spec(src, dest, dpath) is Ok,
    ensures
        copy_spec(src, copy_spec(src, dest, dpath)->Ok_0.0, dpath) matches Ok(p2) && p2.0
            == copy_spec(src, dest, dpath)->Ok_0.0 && all_skips(p2.1),
{
    let d1 = copy_spec(src, dest, dpath)->Ok_0.0;
    lemma_copy_from_satisfies(src, 0, dest, dpath);
    lemma_satisfied_run_noop(src, 0, d1, dpath);
}

/// One removal action, as pruning emits it for an unmatched entry.
pub open spec fn removal_of(e: EntryView, dpath: Seq<char>) -> ActionView {
    match e {
        EntryView::Dir { .. } => ActionView::RemoveDir { dest: join(dpath, e.name()) },
        EntryView::File { .. } => ActionView::RemoveFile { dest: join(dpath, e.name()) },
    }
}

/// Prune policy: every entry the prune keeps bears a name present among the
/// source children; every destination entry whose name is present is still
/// represented afterwards; and every entry whose name is absent has its
/// removal among the actions.
pub proof fn lemma_prune_policy(src: Seq<NodeView>, dest: Seq<EntryView>, dpath: Seq<char>)
    ensures
        forall|j: int|
            0 <= j < prune_spec(src, dest, dpath).0.len() ==> contains_name(
                src,
                (#[trigger] prune_spec(src, dest, dpath).0[j]).name(),
            ),
        forall|k: int|
            0 <= k < dest.len() && contains_name(src, (#[trigger] dest[k]).name())
                ==> exists|j: int|
                0 <= j < prune_spec(src, dest, dpath).0.len() && prune_spec(
                    src,
                    dest,
                    dpath,
                ).0[j].name() == dest[k].name(),
        forall|k: int|
            0 <= k < dest.len() && !contains_name(src, (#[trigger] dest[k]).name())
                ==> prune_spec(src, dest, dpath).1.contains(removal_of(dest[k], dpath)),
{
    lemma_prune_policy_from(src, dest, 0, dpath);
    assert forall|k: int|
        0 <= k < dest.len() && contains_name(src, (#[trigger] dest[k]).name())
            implies exists|j: int|
        0 <= j < prune_spec(src, dest, dpath).0.len() && prune_spec(src, dest, dpath).0[j].name()
            == dest[k].name() by {
        let r = prune_from_spec(src, dest, 0, dpath);
        let j0 = choose|j: int| 0 <= j < r.0.len() && r.0[j].name() == dest[k].name();
        assert(prune_spec(src, dest, dpath).0[j0].name() == dest[k].name());
    }
}

/// Pruning preserves an entry's name and modification time when it keeps
/// the entry.
proof fn lemma_prune_entry_name(src: Seq<NodeView>, e: EntryView, dpath: Seq<char>)
    ensures
        prune_entry_spec(src, e, dpath).0 matches Some(ke) ==> ke.name() == e.name() && ke.mtime()
            == e.mtime(),
        prune_entry_spec(src, e, dpath).0 is Some <==> contains_name(src, e.name()),
        !contains_name(src, e.name()) ==> prune_entry_spec(src, e, dpath).1 == seq![
            removal_of(e, dpath),
        ],
{
}

/// `lemma_prune_policy`, generalized over the tail `dest[i..]`.
proof fn lemma_prune_policy_from(
    src: Seq<NodeView>,
    dest: Seq<EntryView>,
    i: int,
    dpath: Seq<char>,
)
    requires
        0 <= i <= dest.len(),
    ensures
        forall|j: int|
            0 <= j < prune_from_spec(src, dest, i, dpath).0.len() ==> contains_name(
                src,
                (#[trigger] prune_from_spec(src, dest, i, dpath).0[j]).name(),
            ),
        forall|k: int|
            i <= k < dest.len() && contains_name(src, (#[trigger] dest[k]).name())
                ==> exists|j: int|
                0 <= j < prune_from_spec(src, dest, i, dpath).0.len() && prune_from_spec(
                    src,
                    dest,
                    i,
                    dpath,
                ).0[j].name() == dest[k].name(),
        forall|k: int|
            i <= k < dest.len() && !contains_name(src, (#[trigger] dest[k]).name())
                ==> prune_from_spec(src, dest, i, dpath).1.contains(removal_of(dest[k], dpath)),
    decreases dest.len() - i,
{
    if i < dest.len() {
        lemma_prune_policy_from(src, dest, i + 1, dpath);
        lemma_prune_entry_name(src, dest[i], dpath);
        let step = prune_entry_spec(src, dest[i], dpath);
        let rest = prune_from_spec(src, dest, i + 1, dpath);
        let whole = prune_from_spec(src, dest, i, dpath);
        assert forall|k: int|
            i <= k < dest.len() && contains_name(src, (#[trigger] dest[k]).name())
                implies exists|j: int|
            0 <= j < whole.0.len() && whole.0[j].name() == dest[k].name() by {
            if k == i {
                assert(whole.0[0].name() == dest[i].name());
            } else {
                let j0 = choose|j: int|
                    0 <= j < rest.0.len() && rest.0[j].name() == dest[k].name();
                match step.0 {
                    Some(_) => {
                        assert(whole.0[j0 + 1].name() == dest[k].name());
                    },
                    None => {
                        assert(whole.0[j0].name() == dest[k].name());
                    },
                }
            }
        }
        assert forall|k: int|
            i <= k < dest.len() && !contains_name(src, (#[trigger] dest[k]).name())
                implies whole.1.contains(removal_of(dest[k], dpath)) by {
            if k == i {
                assert(whole.1[0] == removal_of(dest[i], dpath));
            } else {
                let m0 = choose|m: int| 0 <= m < rest.1.len() && rest.1[m] == removal_of(
                    dest[k],
                    dpath,
                );
                assert(whole.1[step.1.len() + m0] == removal_of(dest[k], dpath));
            }
        }
    }
}

/// The first destination entry bearing a name survives a prune of `dest[j..]`
/// as its pruned form, and is still the first entry of that name afterwards.
proof fn lemma_prune_keeps_first(
    src: Seq<NodeView>,
    dest: Seq<EntryView>,
    j: int,
    i: int,
    name: Seq<char>,
    dpath: Seq<char>,
)
    requires
        0 <= j <= i < dest.len(),
        dest[i].name() == name,
        forall|k: int| j <= k < i ==> (#[trigger] dest[k]).name() != name,
        contains_name(src, name),
    ensures
        prune_entry_spec(src, dest[i], dpath).0 matches Some(ke) && (match find_entry(
            prune_from_spec(src, dest, j, dpath).0,
            name,
        ) {
            Some(i2) => prune_from_spec(src, dest, j, dpath).0[i2] == ke,
            None => false,
        }),
    decreases i - j,
{
    lemma_prune_entry_name(src, dest[i], dpath);
    let ke = prune_entry_spec(src, dest[i], dpath).0->0;
    let kept = prune_from_spec(src, dest, j, dpath).0;
    if j == i {
        assert(kept[0] == ke);
        assert(kept[0].name() == name);
    } else {
        lemma_prune_keeps_first(src, dest, j + 1, i, name, dpath);
        lemma_prune_entry_name(src, dest[j], dpath);
        let rest = prune_from_spec(src, dest, j + 1, dpath).0;
        let i2 = match find_entry(rest, name) {
            Some(i2) => i2,
            None => 0,
        };
        lemma_find_from_props(rest, name, 0);
        match prune_entry_spec(src, dest[j], dpath).0 {
            Some(e0) => {
                assert(e0.name() != name);
                assert(kept[1 + i2] == ke);
                assert forall|k: int| 0 <= k < 1 + i2 implies (#[trigger] kept[k]).name()
                    != name by {
                    if k > 0 {
                        assert(kept[k] == rest[k - 1]);
                    }
                }
                lemma_find_from_complete(kept, name, 0, 1 + i2);
            },
            None => {
                assert(kept =~= rest);
            },
        }
    }
}

/// Pruning a destination against the source children it satisfies keeps the
/// node at `k` satisfied.
proof fn lemma_prune_preserves_node(
    src: Seq<NodeView>,
    k: int,
    dest: Seq<EntryView>,
    dpath: Seq<char>,
)
    requires
        nodes_wf(src),
        0 <= k < src.len(),
        node_satisfied(src[k], dest),
    ensures
        node_satisfied(src[k], prune_spec(src, dest, dpath).0),
    decreases src[k], 0int,
{
    let n = src[k];
    let name = n.name();
    let kept = prune_spec(src, dest, dpath).0;
    assert(contains_name(src, name));
    match find_entry(dest, name) {
        Some(i) => {
            lemma_find_from_props(dest, name, 0);
            lemma_prune_keeps_first(src, dest, 0, i, name, dpath);
            lemma_prune_entry_name(src, dest[i], dpath);
            let ke = prune_entry_spec(src, dest[i], dpath).0->0;
            match n {
                NodeView::File { .. } => {},
                NodeView::Directory { children, .. } => {
                    lemma_all_nodes_wf_index(src, k);
                    match dest[i] {
                        EntryView::Dir { name: en, mtime: em, entries } => {
                            lemma_find_dir_from_props(src, name, 0);
                            match find_dir(src, name) {
                                Some(jd) => {
                                    assert(jd == k);
                                    lemma_prune_preserves_sats(
                                        children,
                                        entries,
                                        join(dpath, en),
                                        0,
                                    );
                                },
                                None => {
                                    assert(false);
                                },
                            }
                        },
                        EntryView::File { .. } => {},
                    }
                },
            }
        },
        None => {
            assert(false);
        },
    }
}

/// Pruning a destination against source children it satisfies keeps every
/// node from `j` on satisfied.
proof fn lemma_prune_preserves_sats(
    src: Seq<NodeView>,
    dest: Seq<EntryView>,
    dpath: Seq<char>,
    j: int,
)
    requires
        nodes_wf(src),
        0 <= j <= src.len(),
        sats_from(src, dest, j),
    ensures
        sats_from(src, prune_spec(src, dest, dpath).0, j),
    decreases src, src.len() - j,
{
    if j < src.len() {
        lemma_prune_preserves_node(src, j, dest, dpath);
        lemma_prune_preserves_sats(src, dest, dpath, j + 1);
    }
}

/// Combined run: after a successful copy followed by a prune, every source
/// node is still mirrored up to date in what remains of the destination, and
/// every remaining entry bears a source child's name -- entries absent from
/// the source are gone.
pub proof fn lemma_copy_then_prune(src: Seq<NodeView>, dest: Seq<EntryView>, dpath: Seq<char>)
    requires
        nodes_wf(src),
        copy_spec(src, dest, dpath) is Ok,
    ensures
        sats_from(src, prune_spec(src, copy_spec(src, dest, dpath)->Ok_0.0, dpath).0, 0),
        forall|j: int|
            0 <= j < prune_spec(src, copy_spec(src, dest, dpath)->Ok_0.0, dpath).0.len()
                ==> contains_name(
                src,
                (#[trigger] prune_spec(src, copy_spec(src, dest, dpath)->Ok_0.0, dpath).0[j]).name(),
            ),
{
    let d1 = copy_spec(src, dest, dpath)->Ok_0.0;
    lemma_copy_from_satisfies(src, 0, dest, dpath);
    lemma_prune_preserves_sats(src, d1, dpath, 0);
    lemma_prune_policy(src, d1, dpath);
}

/// The destination entry a fresh copy of a source node produces: a writable
/// file carrying the source's modification time, or a directory mirroring
/// the source directory.
pub open spec fn image_node(n: NodeView) -> EntryView
    decreases n, 0int,
{
    match n {
        NodeView::File { name, mtime, .. } => EntryView::File { name, mtime, readonly: false },
        NodeView::Directory { name, mtime, children, .. } => EntryView::Dir {
            name,
            mtime,
            entries: image_from(children, 0),
        },
    }
}

/// The images of the source nodes `src[i..]`, in order.
pub open spec fn image_from(src: Seq<NodeView>, i: int) -> Seq<EntryView>
    decreases src, src.len() - i,
{
    if i < 0 || i >= src.len() {
        Seq::empty()
    } else {
        seq![image_node(src[i])] + image_from(src, i + 1)
    }
}

/// The destination tree a fresh copy of the whole source produces.
pub open spec fn image(src: Seq<NodeView>) -> Seq<EntryView> {
    image_from(src, 0)
}

proof fn lemma_image_from_props(src: Seq<NodeView>, i: int)
    requires
        0 <= i <= src.len(),
    ensures
        image_from(src, i).len() == src.len() - i,
        forall|k: int|
            0 <= k < src.len() - i ==> #[trigger] image_from(src, i)[k] == image_node(src[i + k]),
    decreases src.len() - i,
{
    if i < src.len() {
        lemma_image_from_props(src, i + 1);
    }
}

/// The destination mirrors the source: entry `k` matches source child `k` in
/// name and kind, a file carries the source file's modification time and is
/// writable, and a directory's entries mirror the source directory's
/// children in turn.
pub open spec fn entry_matches(n: NodeView, e: EntryView) -> bool
    decreases n, 0int,
{
    match n {
        NodeView::File { name, mtime, .. } => e == EntryView::File {
            name,
            mtime,
            readonly: false,
        },
        NodeView::Directory { name, children, .. } => match e {
            EntryView::Dir { name: en, entries, .. } => en == name && tree_matches(
                children,
                entries,
            ),
            EntryView::File { .. } => false,
        },
    }
}

/// Every pair `(src[k], dest[k])` from `i` on matches.
pub open spec fn pairs_match_from(src: Seq<NodeView>, dest: Seq<EntryView>, i: int) -> bool
    decreases src, src.len() - i,
{
    if i < 0 || i >= src.len() {
        true
    } else {
        (i < dest.len() && entry_matches(src[i], dest[i])) && pairs_match_from(src, dest, i + 1)
    }
}

/// The destination tree is structurally identical to the source: same names
/// and nesting in the same order, and each file up to date and writable.
pub open spec fn tree_matches(src: Seq<NodeView>, dest: Seq<EntryView>) -> bool
    decreases src, src.len() + 1,
{
    dest.len() == src.len() && pairs_match_from(src, dest, 0)
}

proof fn lemma_image_node_matches(n: NodeView)
    ensures
        entry_matches(n, image_node(n)),
    decreases n, 0int,
{
    match n {
        NodeView::File { .. } => {},
        NodeView::Directory { name, children, .. } => {
            lemma_image_matches_from(children, 0);
            lemma_image_from_props(children, 0);
        },
    }
}

proof fn lemma_image_matches_from(src: Seq<NodeView>, i: int)
    requires
        0 <= i <= src.len(),
    ensures
        pairs_match_from(src, image(src), i),
    decreases src, src.len() - i,
{
    if i < src.len() {
        lemma_image_from_props(src, 0);
        lemma_image_node_matches(src[i]);
        lemma_image_matches_from(src, i + 1);
    }
}

/// The image of the source mirrors it.
proof fn lemma_tree_matches_image(src: Seq<NodeView>)
    ensures
        tree_matches(src, image(src)),
{
    lemma_image_from_props(src, 0);
    lemma_image_matches_from(src, 0);
}

/// A copy step for a node absent from the destination appends its image.
proof fn lemma_copy_node_fresh(n: NodeView, dest: Seq<EntryView>, dpath: Seq<char>)
    requires
        node_wf(n),
        find_entry(dest, n.name()) is None,
    ensures
        copy_node_spec(n, dest, dpath) matches Ok(p) && p.0 == dest.push(image_node(n)),
    decreases n, 0int,
{
    match n {
        NodeView::File { .. } => {},
        NodeView::Directory { name, path, mtime, children } => {
            let target = join(dpath, name);
            lemma_copy_fresh(children, 0, Seq::empty(), target);
            lemma_image_from_props(children, 0);
            let sub = copy_from_spec(children, 0, Seq::empty(), target)->Ok_0.0;
            assert(sub =~= image_from(children, 0));
        },
    }
}

/// A copy run into a destination that holds none of the source names appends
/// the images of all the processed nodes.
proof fn lemma_copy_fresh(src: Seq<NodeView>, i: int, dest: Seq<EntryView>, dpath: Seq<char>)
    requires
        nodes_wf(src),
        0 <= i <= src.len(),
        forall|j: int|
            i <= j < src.len() ==> find_entry(dest, (#[trigger] src[j]).name()) is None,
    ensures
        copy_from_spec(src, i, dest, dpath) matches Ok(p) && p.0 == dest + image_from(src, i),
    decreases src, src.len() - i,
{
    if i >= src.len() {
        assert(dest + image_from(src, i) =~= dest);
    } else {
        lemma_all_nodes_wf_index(src, i);
        lemma_copy_node_fresh(src[i], dest, dpath);
        let d1 = dest.push(image_node(src[i]));
        assert forall|j: int|
            i + 1 <= j < src.len() implies find_entry(d1, (#[trigger] src[j]).name())
            is None by {
            assert(src[j].name() != src[i].name());
            lemma_find_stable(dest, d1, src[j].name());
        }
        lemma_copy_fresh(src, i + 1, d1, dpath);
        assert(d1 + image_from(src, i + 1) =~= dest + image_from(src, i));
    }
}

/// Pruning the image of one source child keeps it untouched.
proof fn lemma_prune_image_entry(src: Seq<NodeView>, k: int, dpath: Seq<char>)
    requires
        nodes_wf(src),
        0 <= k < src.len(),
    ensures
        prune_entry_spec(src, image_node(src[k]), dpath) == (
            Some(image_node(src[k])),
            Seq::<ActionView>::empty(),
        ),
    decreases src[k], 0int,
{
    let e = image_node(src[k]);
    let name = src[k].name();
    assert(e.name() == name);
    assert(contains_name(src, name));
    match src[k] {
        NodeView::File { .. } => {},
        NodeView::Directory { name: dn, path, mtime, children } => {
            lemma_find_dir_from_props(src, name, 0);
            match find_dir(src, name) {
                Some(j) => {
                    assert(j == k);
                    match src[k] {
                        NodeView::Directory { children: ch2, .. } => {
                            lemma_all_nodes_wf_index(src, k);
                            lemma_prune_image_run(ch2, 0, join(dpath, name));
                            lemma_image_from_props(ch2, 0);
                            assert(image(ch2).subrange(0, ch2.len() as int) =~= image_from(
                                ch2,
                                0,
                            ));
                        },
                        NodeView::File { .. } => {
                            assert(false);
                        },
                    }
                },
                None => {
                    assert(false);
                },
            }
        },
    }
}

/// Pruning the image of the source keeps every entry from `i` on untouched
/// and removes nothing.
proof fn lemma_prune_image_run(src: Seq<NodeView>, i: int, dpath: Seq<char>)
    requires
        nodes_wf(src),
        0 <= i <= src.len(),
    ensures
        prune_from_spec(src, image(src), i, dpath) == (
            image(src).subrange(i, src.len() as int),
            Seq::<ActionView>::empty(),
        ),
    decreases src, src.len() - i,
{
    lemma_image_from_props(src, 0);
    if i >= src.len() {
        assert(image(src).subrange(i, src.len() as int) =~= Seq::<EntryView>::empty());
    } else {
        lemma_prune_image_entry(src, i, dpath);
        lemma_prune_image_run(src, i + 1, dpath);
        assert(seq![image_node(src[i])] + image(src).subrange(i + 1, src.len() as int)
            =~= image(src).subrange(i, src.len() as int));
        assert(Seq::<ActionView>::empty() + Seq::<ActionView>::empty()
            =~= Seq::<ActionView>::empty());
    }
}

/// Mirror law: copying a well-formed source into an empty destination
/// succeeds and produces a destination structurally identical to the source,
/// and pruning that destination removes nothing and keeps it unchanged.
pub proof fn lemma_fresh_sync(src: Seq<NodeView>, dpath: Seq<char>)
    requires
        nodes_wf(src),
    ensures
        copy_spec(src, Seq::empty(), dpath) matches Ok(p) && tree_matches(src, p.0)
            && prune_spec(src, p.0, dpath) == (p.0, Seq::<ActionView>::empty()),
{
    lemma_copy_fresh(src, 0, Seq::empty(), dpath);
    let p0 = copy_spec(src, Seq::empty(), dpath)->Ok_0.0;
    assert(p0 =~= image(src));
    lemma_tree_matches_image(src);
    lemma_prune_image_run(src, 0, dpath);
    lemma_image_from_props(src, 0);
    assert(image(src).subrange(0, src.len() as int) =~= image(src));
}

} // verus!
