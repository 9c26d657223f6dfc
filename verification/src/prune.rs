//! The Prune Reconciler.
//!
//! `remove_extra_files` walks a snapshot of the destination directory and
//! removes every entry whose name has no counterpart among the source
//! children at the same tree position. Matching is by name only: a source
//! file and a destination directory sharing a name count as "present". A
//! destination directory whose name matches a source directory is pruned
//! recursively, against the first source directory child of that name; if
//! the name matches only a source file, the destination directory is left
//! alone. The outcome is pinned to the recursive specification `prune_spec`.

use vstd::prelude::*;

use crate::copy::{actions_view, join, join_path, Action, ActionView};
use crate::tree::{
    clone_entry, entries_view, entry_name, entry_view, lemma_entries_view, lemma_nodes_view,
    node_name, node_view, nodes_view, Entry, EntryView, Node, NodeView,
};

verus! {

/// Some source child bears this name.
pub open spec fn contains_name(src: Seq<NodeView>, name: Seq<char>) -> bool {
    exists|i: int| 0 <= i < src.len() && src[i].name() == name
}

/// The index of the first directory child named `name` at or after `i`.
pub open spec fn find_dir_from(src: Seq<NodeView>, name: Seq<char>, i: int) -> Option<int>
    decreases src.len() - i,
{
    if i < 0 || i >= src.len() {
        None
    } else if src[i] matches NodeView::Directory { .. } && src[i].name() == name {
        Some(i)
    } else {
        find_dir_from(src, name, i + 1)
    }
}

/// The index of the first directory child named `name`, if any.
pub open spec fn find_dir(src: Seq<NodeView>, name: Seq<char>) -> Option<int> {
    find_dir_from(src, name, 0)
}

/// The outcome of pruning one destination entry at `dpath` against the
/// source children: the entry as kept (`None` when it is removed) and the
/// removal actions.
pub open spec fn prune_entry_spec(src: Seq<NodeView>, e: EntryView, dpath: Seq<char>) -> (
    Option<EntryView>,
    Seq<ActionView>,
)
    decreases e, 0int,
{
    let target = join(dpath, e.name());
    if !contains_name(src, e.name()) {
        match e {
            EntryView::Dir { .. } => (
                None::<EntryView>,
                seq![ActionView::RemoveDir { dest: target }],
            ),
            EntryView::File { .. } => (
                None::<EntryView>,
                seq![ActionView::RemoveFile { dest: target }],
            ),
        }
    } else {
        match e {
            EntryView::Dir { name, mtime, entries } => match find_dir(src, name) {
                Some(j) => match src[j] {
                    NodeView::Directory { children, .. } => {
                        let sub = prune_from_spec(children, entries, 0, target);
                        (
                            Some(EntryView::Dir { name, mtime, entries: sub.0 }),
                            sub.1,
                        )
                    },
                    NodeView::File { .. } => (Some(e), Seq::empty()),
                },
                None => (Some(e), Seq::empty()),
            },
            EntryView::File { .. } => (Some(e), Seq::empty()),
        }
    }
}

/// The outcome of pruning the destination entries `dest[i..]` at `dpath`
/// against the source children: the entries that remain, in order, and the
/// removal actions.
pub open spec fn prune_from_spec(
    src: Seq<NodeView>,
    dest: Seq<EntryView>,
    i: int,
    dpath: Seq<char>,
) -> (Seq<EntryView>, Seq<ActionView>)
    decreases dest, dest.len() - i,
{
    if i < 0 || i >= dest.len() {
        (Seq::empty(), Seq::empty())
    } else {
        let step = prune_entry_spec(src, dest[i], dpath);
        let rest = prune_from_spec(src, dest, i + 1, dpath);
        (
            match step.0 {
                Some(e) => seq![e] + rest.0,
                None => rest.0,
            },
            step.1 + rest.1,
        )
    }
}

/// The outcome of pruning all destination entries at `dpath` against the
/// source children.
pub open spec fn prune_spec(src: Seq<NodeView>, dest: Seq<EntryView>, dpath: Seq<char>) -> (
    Seq<EntryView>,
    Seq<ActionView>,
) {
    prune_from_spec(src, dest, 0, dpath)
}

/// What a successful or failed directory lookup says about the children.
pub proof fn lemma_find_dir_from_props(src: Seq<NodeView>, name: Seq<char>, i: int)
    requires
        0 <= i <= src.len(),
    ensures
        find_dir_from(src, name, i) matches Some(j) ==> (i <= j < src.len() && (src[j]
            matches NodeView::Directory { .. }) && src[j].name() == name),
        find_dir_from(src, name, i) is None ==> forall|k: int|
            i <= k < src.len() ==> !((#[trigger] src[k]) matches NodeView::Directory { .. }
                && src[k].name() == name),
    decreases src.len() - i,
{
    if i < src.len() && !(src[i] matches NodeView::Directory { .. } && src[i].name() == name) {
        lemma_find_dir_from_props(src, name, i + 1);
    }
}

/// Tests whether some source child bears `name`.
fn contains_name_exec(src: &Vec<Node>, name: &String) -> (r: bool)
    ensures
        r == contains_name(nodes_view(src@), name@),
{
    proof {
        lemma_nodes_view(src@);
    }
    let ghost nv = nodes_view(src@);
    let mut i: usize = 0;
    while i < src.len()
        invariant
            i <= src@.len(),
            nv == nodes_view(src@),
            nv.len() == src@.len(),
            forall|k: int| 0 <= k < src@.len() ==> #[trigger] nv[k] == node_view(src@[k]),
            forall|k: int| 0 <= k < i ==> #[trigger] nv[k].name() != name@,
        decreases src@.len() - i,
    {
        if node_name(&src[i]).eq(name) {
            proof {
                assert(nv[i as int].name() == name@);
            }
            return true;
        }
        i = i + 1;
    }
    false
}

/// Looks up the first source directory child named `name`.
fn find_dir_exec(src: &Vec<Node>, name: &String) -> (r: Option<usize>)
    ensures
        r is Some <==> find_dir(nodes_view(src@), name@) is Some,
        r matches Some(j) ==> find_dir(nodes_view(src@), name@) == Some(j as int) && j
            < src@.len() && src@[j as int] matches Node::Directory { .. },
{
    proof {
        lemma_nodes_view(src@);
    }
    let ghost nv = nodes_view(src@);
    let mut i: usize = 0;
    while i < src.len()
        invariant
            i <= src@.len(),
            nv == nodes_view(src@),
            nv.len() == src@.len(),
            forall|k: int| 0 <= k < src@.len() ==> #[trigger] nv[k] == node_view(src@[k]),
            find_dir(nv, name@) == find_dir_from(nv, name@, i as int),
        decreases src@.len() - i,
    {
        match &src[i] {
            Node::Directory { name: n2, .. } => {
                if n2.eq(name) {
                    return Some(i);
                }
            },
            Node::File { .. } => {},
        }
        i = i + 1;
    }
    None
}

/// Prunes one destination entry against the source children.
fn prune_entry(src: &Vec<Node>, e: &Entry, dpath: &String) -> (r: (Option<Entry>, Vec<Action>))
    ensures
        r.0 is Some <==> prune_entry_spec(nodes_view(src@), entry_view(*e), dpath@).0 is Some,
        r.0 matches Some(ke) ==> prune_entry_spec(nodes_view(src@), entry_view(*e), dpath@).0
            == Some(entry_view(ke)),
        actions_view(r.1@) == prune_entry_spec(nodes_view(src@), entry_view(*e), dpath@).1,
    decreases *e, 0int,
{
    let name = entry_name(e);
    let target = join_path(dpath, name);
    if !contains_name_exec(src, name) {
        match e {
            Entry::Dir { .. } => {
                let acts = vec![Action::RemoveDir { dest: target }];
                proof {
                    assert(actions_view(acts@) =~= seq![
                        ActionView::RemoveDir { dest: join(dpath@, entry_view(*e).name()) },
                    ]);
                }
                (None, acts)
            },
            Entry::File { .. } => {
                let acts = vec![Action::RemoveFile { dest: target }];
                proof {
                    assert(actions_view(acts@) =~= seq![
                        ActionView::RemoveFile { dest: join(dpath@, entry_view(*e).name()) },
                    ]);
                }
                (None, acts)
            },
        }
    } else {
        match e {
            Entry::Dir { name: ename, mtime, entries } => {
                match find_dir_exec(src, ename) {
                    Some(j) => {
                        match &src[j] {
                            Node::Directory { children, .. } => {
                                proof {
                                    lemma_nodes_view(src@);
                                }
                                let (sub, acts) = prune_seq(children, entries, 0, &target);
                                let kept = Entry::Dir {
                                    name: ename.clone(),
                                    mtime: *mtime,
                                    entries: sub,
                                };
                                (Some(kept), acts)
                            },
                            Node::File { .. } => {
                                let acts: Vec<Action> = Vec::new();
                                proof {
                                    assert(actions_view(acts@) =~= Seq::<ActionView>::empty());
                                }
                                (Some(clone_entry(e)), acts)
                            },
                        }
                    },
                    None => {
                        let acts: Vec<Action> = Vec::new();
                        proof {
                            assert(actions_view(acts@) =~= Seq::<ActionView>::empty());
                        }
                        (Some(clone_entry(e)), acts)
                    },
                }
            },
            Entry::File { .. } => {
                let acts: Vec<Action> = Vec::new();
                proof {
                    assert(actions_view(acts@) =~= Seq::<ActionView>::empty());
                }
                (Some(clone_entry(e)), acts)
            },
        }
    }
}

/// Prunes the destination entries `dest[i..]` against the source children.
fn prune_seq(src: &Vec<Node>, dest: &Vec<Entry>, i: usize, dpath: &String) -> (r: (
    Vec<Entry>,
    Vec<Action>,
))
    requires
        i <= dest@.len(),
    ensures
        entries_view(r.0@) == prune_from_spec(
            nodes_view(src@),
            entries_view(dest@),
            i as int,
            dpath@,
        ).0,
        actions_view(r.1@) == prune_from_spec(
            nodes_view(src@),
            entries_view(dest@),
            i as int,
            dpath@,
        ).1,
    decreases dest@, dest@.len() - i,
{
    proof {
        lemma_entries_view(dest@);
    }
    if i == dest.len() {
        let kept: Vec<Entry> = Vec::new();
        let acts: Vec<Action> = Vec::new();
        proof {
            assert(entries_view(kept@) =~= Seq::<EntryView>::empty());
            assert(actions_view(acts@) =~= Seq::<ActionView>::empty());
        }
        (kept, acts)
    } else {
        let (opt_kept, a1) = prune_entry(src, &dest[i], dpath);
        let (rest, a2) = prune_seq(src, dest, i + 1, dpath);
        let ghost spec_whole = prune_from_spec(
            nodes_view(src@),
            entries_view(dest@),
            i as int,
            dpath@,
        );
        let mut kept: Vec<Entry> = Vec::new();
        match opt_kept {
            Some(e) => kept.push(e),
            None => {},
        }
        let mut kept = kept;
        let mut rest = rest;
        let ghost r0 = rest@;
        kept.append(&mut rest);
        let mut acts = a1;
        let mut a2 = a2;
        acts.append(&mut a2);
        proof {
            lemma_entries_view(kept@);
            lemma_entries_view(r0);
            assert(entries_view(kept@) =~= spec_whole.0);
            assert(actions_view(acts@) =~= spec_whole.1);
        }
        (kept, acts)
    }
}

/// Prunes a snapshot of the destination directory at `dest_path` against the
/// source children, producing the entries that remain and the removal
/// actions. The outcome is exactly `prune_spec` over the views.
pub fn remove_extra_files(src_children: &Vec<Node>, dest: &Vec<Entry>, dest_path: &String) -> (r: (
    Vec<Entry>,
    Vec<Action>,
))
    ensures
        entries_view(r.0@) == prune_spec(
            nodes_view(src_children@),
            entries_view(dest@),
            dest_path@,
        ).0,
        actions_view(r.1@) == prune_spec(
            nodes_view(src_children@),
            entries_view(dest@),
            dest_path@,
        ).1,
{
    prune_seq(src_children, dest, 0, dest_path)
}

} // verus!
