//! The Copy Reconciler.
//!
//! `copy_files` walks the source children against a snapshot of the
//! destination directory and computes, without touching any filesystem, the
//! destination state after the synchronization together with the list of
//! actions (copies, directory creations, read-only removals, skip notices)
//! that produce it. The whole outcome is pinned to the recursive
//! specification `copy_spec`.
//!
//! Policy, stated by `copy_node_spec`:
//! - a source file whose destination counterpart exists with an equal or
//!   later modification time is skipped (a tie counts as up to date);
//! - a stale destination file is overwritten; if it is read-only it is
//!   removed first;
//! - a missing destination directory is created, then its contents are
//!   reconciled recursively;
//! - a stale destination directory in the place of a source file, or a
//!   destination file in the place of a nonempty source directory, is a
//!   conflict that aborts the run with the offending path.

use vstd::prelude::*;
use vstd::string::StringExecFns;

use crate::tree::{
    clone_entries, entries_view, entry_mtime, entry_view, lemma_entries_view, lemma_nodes_view,
    node_view, nodes_view, Entry, EntryView, Node, NodeView,
};

verus! {

/// One filesystem mutation (or skip notice) for the caller to carry out.
#[derive(Debug, PartialEq)]
pub enum Action {
    /// Copy the file at `src` over `dest`, overwriting it if present.
    CopyFile { src: String, dest: String },
    /// Remove the read-only file at `dest` so the following copy succeeds.
    RemoveReadonly { dest: String },
    /// Create the directory at `dest`, with any missing parents.
    CreateDir { dest: String },
    /// The file at `dest` is already up to date; nothing to do.
    SkipUpToDate { dest: String },
    /// Remove the file at `dest`.
    RemoveFile { dest: String },
    /// Remove the directory at `dest` and everything below it.
    RemoveDir { dest: String },
}

/// Ghost mirror of `Action`.
pub enum ActionView {
    CopyFile { src: Seq<char>, dest: Seq<char> },
    RemoveReadonly { dest: Seq<char> },
    CreateDir { dest: Seq<char> },
    SkipUpToDate { dest: Seq<char> },
    RemoveFile { dest: Seq<char> },
    RemoveDir { dest: Seq<char> },
}

pub open spec fn action_view(a: Action) -> ActionView {
    match a {
        Action::CopyFile { src, dest } => ActionView::CopyFile { src: src@, dest: dest@ },
        Action::RemoveReadonly { dest } => ActionView::RemoveReadonly { dest: dest@ },
        Action::CreateDir { dest } => ActionView::CreateDir { dest: dest@ },
        Action::SkipUpToDate { dest } => ActionView::SkipUpToDate { dest: dest@ },
        Action::RemoveFile { dest } => ActionView::RemoveFile { dest: dest@ },
        Action::RemoveDir { dest } => ActionView::RemoveDir { dest: dest@ },
    }
}

pub open spec fn actions_view(s: Seq<Action>) -> Seq<ActionView> {
    s.map_values(|a: Action| action_view(a))
}

/// A conflict between the kinds of a source node and the destination entry in
/// its place, which the policy cannot resolve; the run aborts with it.
#[derive(Debug, PartialEq)]
pub enum SyncError {
    /// A stale destination directory stands where a file must be copied.
    NotAFile { path: String },
    /// A destination file stands where a nonempty directory must be mirrored.
    NotADirectory { path: String },
}

/// Ghost mirror of `SyncError`.
pub enum SyncErrorView {
    NotAFile { path: Seq<char> },
    NotADirectory { path: Seq<char> },
}

pub open spec fn error_view(e: SyncError) -> SyncErrorView {
    match e {
        SyncError::NotAFile { path } => SyncErrorView::NotAFile { path: path@ },
        SyncError::NotADirectory { path } => SyncErrorView::NotADirectory { path: path@ },
    }
}

/// A directory path joined with a child name.
pub open spec fn join(dir: Seq<char>, name: Seq<char>) -> Seq<char> {
    dir + "/"@ + name
}

/// Joins a directory path with a child name.
pub fn join_path(dir: &String, name: &String) -> (r: String)
    ensures
        r@ == join(dir@, name@),
{
    let mut s = dir.clone();
    s.append("/");
    s.append(name.as_str());
    s
}

/// The index of the first entry named `name` at or after `i`, if any.
pub open spec fn find_from(dest: Seq<EntryView>, name: Seq<char>, i: int) -> Option<int>
    decreases dest.len() - i,
{
    if i < 0 || i >= dest.len() {
        None
    } else if dest[i].name() == name {
        Some(i)
    } else {
        find_from(dest, name, i + 1)
    }
}

/// The index of the first entry named `name`, if any.
pub open spec fn find_entry(dest: Seq<EntryView>, name: Seq<char>) -> Option<int> {
    find_from(dest, name, 0)
}

/// What a successful or failed lookup says about the entries.
pub proof fn lemma_find_from_props(dest: Seq<EntryView>, name: Seq<char>, i: int)
    requires
        0 <= i <= dest.len(),
    ensures
        find_from(dest, name, i) matches Some(j) ==> (i <= j < dest.len() && dest[j].name()
            == name && forall|k: int| i <= k < j ==> (#[trigger] dest[k]).name() != name),
        find_from(dest, name, i) is None ==> forall|k: int|
            i <= k < dest.len() ==> (#[trigger] dest[k]).name() != name,
    decreases dest.len() - i,
{
    if i < dest.len() && dest[i].name() != name {
        lemma_find_from_props(dest, name, i + 1);
    }
}

/// The lookup finds exactly the first entry bearing the name.
pub proof fn lemma_find_from_complete(dest: Seq<EntryView>, name: Seq<char>, i: int, j: int)
    requires
        0 <= i <= j < dest.len(),
        dest[j].name() == name,
        forall|k: int| i <= k < j ==> (#[trigger] dest[k]).name() != name,
    ensures
        find_from(dest, name, i) == Some(j),
    decreases j - i,
{
    if i < j {
        lemma_find_from_complete(dest, name, i + 1, j);
    }
}

/// A lookup is unchanged by edits that preserve every entry's name and
/// append only entries bearing other names.
pub proof fn lemma_find_stable(d1: Seq<EntryView>, d2: Seq<EntryView>, name: Seq<char>)
    requires
        d1.len() <= d2.len(),
        forall|k: int| 0 <= k < d1.len() ==> (#[trigger] d2[k]).name() == d1[k].name(),
        forall|k: int| d1.len() <= k < d2.len() ==> (#[trigger] d2[k]).name() != name,
    ensures
        find_entry(d2, name) == find_entry(d1, name),
{
    lemma_find_from_props(d1, name, 0);
    lemma_find_from_props(d2, name, 0);
    match find_from(d1, name, 0) {
        Some(j) => {
            lemma_find_from_complete(d2, name, 0, j);
        },
        None => {
            match find_from(d2, name, 0) {
                Some(j) => {
                    assert(d2[j].name() == name);
                    assert(j < d1.len() ==> d1[j].name() == name);
                    assert(false);
                },
                None => {},
            }
        },
    }
}

/// Looks a name up among the destination entries.
fn find_entry_exec(dest: &Vec<Entry>, name: &String) -> (r: Option<usize>)
    ensures
        r is Some <==> find_entry(entries_view(dest@), name@) is Some,
        r matches Some(i) ==> find_entry(entries_view(dest@), name@) == Some(i as int) && i
            < dest@.len() && entries_view(dest@)[i as int].name() == name@,
{
    proof {
        lemma_entries_view(dest@);
    }
    let ghost ev = entries_view(dest@);
    let mut i: usize = 0;
    while i < dest.len()
        invariant
            i <= dest.len(),
            ev == entries_view(dest@),
            ev.len() == dest@.len(),
            forall|k: int| 0 <= k < dest@.len() ==> #[trigger] ev[k] == entry_view(dest@[k]),
            find_entry(ev, name@) == find_from(ev, name@, i as int),
        decreases dest@.len() - i,
    {
        let en = crate::tree::entry_name(&dest[i]);
        if en.eq(name) {
            return Some(i);
        }
        i = i + 1;
    }
    None
}

/// The outcome of reconciling one source node against the destination
/// entries `dest` of the directory at `dpath`: the new destination entries
/// and the actions that produce them, or the conflict that aborts the run.
pub open spec fn copy_node_spec(n: NodeView, dest: Seq<EntryView>, dpath: Seq<char>) -> Result<
    (Seq<EntryView>, Seq<ActionView>),
    SyncErrorView,
>
    decreases n, 0int,
{
    match n {
        NodeView::File { name, path, mtime } => {
            let target = join(dpath, name);
            match find_entry(dest, name) {
                Some(i) => if mtime <= dest[i].mtime() {
                    Ok((dest, seq![ActionView::SkipUpToDate { dest: target }]))
                } else {
                    match dest[i] {
                        EntryView::File { readonly, .. } => {
                            let upd = dest.update(
                                i,
                                EntryView::File { name, mtime, readonly: false },
                            );
                            if readonly {
                                Ok(
                                    (
                                        upd,
                                        seq![
                                            ActionView::RemoveReadonly { dest: target },
                                            ActionView::CopyFile { src: path, dest: target },
                                        ],
                                    ),
                                )
                            } else {
                                Ok((upd, seq![ActionView::CopyFile { src: path, dest: target }]))
                            }
                        },
                        EntryView::Dir { .. } => Err(SyncErrorView::NotAFile { path: target }),
                    }
                },
                None => Ok(
                    (
                        dest.push(EntryView::File { name, mtime, readonly: false }),
                        seq![ActionView::CopyFile { src: path, dest: target }],
                    ),
                ),
            }
        },
        NodeView::Directory { name, path: _, mtime, children } => {
            let target = join(dpath, name);
            match find_entry(dest, name) {
                Some(i) => match dest[i] {
                    EntryView::Dir { name: ename, mtime: emtime, entries } => {
                        match copy_from_spec(children, 0, entries, target) {
                            Ok(sub) => Ok(
                                (
                                    dest.update(
                                        i,
                                        EntryView::Dir {
                                            name: ename,
                                            mtime: emtime,
                                            entries: sub.0,
                                        },
                                    ),
                                    sub.1,
                                ),
                            ),
                            Err(e) => Err(e),
                        }
                    },
                    EntryView::File { .. } => if children.len() == 0 {
                        Ok((dest, Seq::empty()))
                    } else {
                        Err(SyncErrorView::NotADirectory { path: target })
                    },
                },
                None => match copy_from_spec(children, 0, Seq::empty(), target) {
                    Ok(sub) => Ok(
                        (
                            dest.push(
                                EntryView::Dir { name, mtime, entries: sub.0 },
                            ),
                            seq![ActionView::CreateDir { dest: target }] + sub.1,
                        ),
                    ),
                    Err(e) => Err(e),
                },
            }
        },
    }
}

/// The outcome of reconciling the source children `src[i..]` against the
/// destination entries `dest` of the directory at `dpath`.
pub open spec fn copy_from_spec(
    src: Seq<NodeView>,
    i: int,
    dest: Seq<EntryView>,
    dpath: Seq<char>,
) -> Result<(Seq<EntryView>, Seq<ActionView>), SyncErrorView>
    decreases src, src.len() - i,
{
    if i < 0 || i >= src.len() {
        Ok((dest, Seq::empty()))
    } else {
        match copy_node_spec(src[i], dest, dpath) {
            Ok(step) => match copy_from_spec(src, i + 1, step.0, dpath) {
                Ok(rest) => Ok((rest.0, step.1 + rest.1)),
                Err(e) => Err(e),
            },
            Err(e) => Err(e),
        }
    }
}

/// The outcome of reconciling all source children against the destination
/// entries `dest` of the directory at `dpath`.
pub open spec fn copy_spec(src: Seq<NodeView>, dest: Seq<EntryView>, dpath: Seq<char>) -> Result<
    (Seq<EntryView>, Seq<ActionView>),
    SyncErrorView,
> {
    copy_from_spec(src, 0, dest, dpath)
}

/// Reconciles one source node against the destination entries.
fn copy_node(n: &Node, dest: &Vec<Entry>, dpath: &String) -> (r: Result<
    (Vec<Entry>, Vec<Action>),
    SyncError,
>)
    ensures
        r is Ok <==> copy_node_spec(node_view(*n), entries_view(dest@), dpath@) is Ok,
        r matches Ok((d, a)) ==> copy_node_spec(node_view(*n), entries_view(dest@), dpath@)
            matches Ok(p) && entries_view(d@) == p.0 && actions_view(a@) == p.1,
        r matches Err(e) ==> copy_node_spec(node_view(*n), entries_view(dest@), dpath@)
            matches Err(ev) && error_view(e) == ev,
    decreases *n, 0int,
{
    proof {
        lemma_entries_view(dest@);
    }
    match n {
        Node::File { name, path, mtime } => {
            let target = join_path(dpath, name);
            match find_entry_exec(dest, name) {
                Some(i) => {
                    let em = entry_mtime(&dest[i]);
                    if *mtime <= em {
                        let acts = vec![Action::SkipUpToDate { dest: target }];
                        let d = clone_entries(dest);
                        proof {
                            assert(actions_view(acts@) =~= seq![
                                ActionView::SkipUpToDate { dest: join(dpath@, name@) },
                            ]);
                        }
                        Ok((d, acts))
                    } else {
                        match &dest[i] {
                            Entry::File { readonly, .. } => {
                                let mut d = clone_entries(dest);
                                let ghost c0 = d@;
                                d.set(
                                    i,
                                    Entry::File { name: name.clone(), mtime: *mtime, readonly: false },
                                );
                                let mut acts: Vec<Action> = Vec::new();
                                if *readonly {
                                    acts.push(Action::RemoveReadonly { dest: target.clone() });
                                }
                                acts.push(Action::CopyFile { src: path.clone(), dest: target });
                                proof {
                                    lemma_entries_view(c0);
                                    lemma_entries_view(d@);
                                    assert(entries_view(d@) =~= entries_view(dest@).update(
                                        i as int,
                                        EntryView::File {
                                            name: name@,
                                            mtime: *mtime,
                                            readonly: false,
                                        },
                                    ));
                                    if *readonly {
                                        assert(actions_view(acts@) =~= seq![
                                            ActionView::RemoveReadonly {
                                                dest: join(dpath@, name@),
                                            },
                                            ActionView::CopyFile {
                                                src: path@,
                                                dest: join(dpath@, name@),
                                            },
                                        ]);
                                    } else {
                                        assert(actions_view(acts@) =~= seq![
                                            ActionView::CopyFile {
                                                src: path@,
                                                dest: join(dpath@, name@),
                                            },
                                        ]);
                                    }
                                }
                                Ok((d, acts))
                            },
                            Entry::Dir { .. } => Err(SyncError::NotAFile { path: target }),
                        }
                    }
                },
                None => {
                    let mut d = clone_entries(dest);
                    let ghost c0 = d@;
                    d.push(Entry::File { name: name.clone(), mtime: *mtime, readonly: false });
                    let acts = vec![
                        Action::CopyFile { src: path.clone(), dest: target },
                    ];
                    proof {
                        lemma_entries_view(c0);
                        lemma_entries_view(d@);
                        assert(entries_view(d@) =~= entries_view(dest@).push(
                            EntryView::File { name: name@, mtime: *mtime, readonly: false },
                        ));
                        assert(actions_view(acts@) =~= seq![
                            ActionView::CopyFile { src: path@, dest: join(dpath@, name@) },
                        ]);
                    }
                    Ok((d, acts))
                },
            }
        },
        Node::Directory { name, path: _, mtime, children } => {
            let target = join_path(dpath, name);
            match find_entry_exec(dest, name) {
                Some(i) => {
                    match &dest[i] {
                        Entry::Dir { name: ename, mtime: em, entries } => {
                            match copy_seq(children, 0, entries, &target) {
                                Ok((sub, acts)) => {
                                    let mut d = clone_entries(dest);
                                    let ghost c0 = d@;
                                    d.set(
                                        i,
                                        Entry::Dir {
                                            name: ename.clone(),
                                            mtime: *em,
                                            entries: sub,
                                        },
                                    );
                                    proof {
                                        lemma_entries_view(c0);
                                        lemma_entries_view(d@);
                                        let p = copy_node_spec(
                                            node_view(*n),
                                            entries_view(dest@),
                                            dpath@,
                                        )->Ok_0;
                                        assert(entries_view(d@) =~= p.0);
                                    }
                                    Ok((d, acts))
                                },
                                Err(e) => Err(e),
                            }
                        },
                        Entry::File { .. } => {
                            if children.len() == 0 {
                                let d = clone_entries(dest);
                                let acts: Vec<Action> = Vec::new();
                                proof {
                                    assert(actions_view(acts@) =~= Seq::<ActionView>::empty());
                                }
                                Ok((d, acts))
                            } else {
                                Err(SyncError::NotADirectory { path: target })
                            }
                        },
                    }
                },
                None => {
                    let empty_dest: Vec<Entry> = Vec::new();
                    proof {
                        assert(entries_view(empty_dest@) =~= Seq::<EntryView>::empty());
                    }
                    match copy_seq(children, 0, &empty_dest, &target) {
                        Ok((sub, acts)) => {
                            let mut d = clone_entries(dest);
                            let ghost c0 = d@;
                            d.push(
                                Entry::Dir { name: name.clone(), mtime: *mtime, entries: sub },
                            );
                            let mut all_acts = vec![
                                Action::CreateDir { dest: target },
                            ];
                            let mut acts = acts;
                            all_acts.append(&mut acts);
                            proof {
                                lemma_entries_view(c0);
                                lemma_entries_view(d@);
                                let p = copy_node_spec(
                                    node_view(*n),
                                    entries_view(dest@),
                                    dpath@,
                                )->Ok_0;
                                assert(entries_view(d@) =~= p.0);
                                assert(actions_view(all_acts@) =~= p.1);
                            }
                            Ok((d, all_acts))
                        },
                        Err(e) => Err(e),
                    }
                },
            }
        },
    }
}

/// Reconciles the source children `src[i..]` against the destination entries.
fn copy_seq(src: &Vec<Node>, i: usize, dest: &Vec<Entry>, dpath: &String) -> (r: Result<
    (Vec<Entry>, Vec<Action>),
    SyncError,
>)
    requires
        i <= src.len(),
    ensures
        r is Ok <==> copy_from_spec(nodes_view(src@), i as int, entries_view(dest@), dpath@)
            is Ok,
        r matches Ok((d, a)) ==> copy_from_spec(
            nodes_view(src@),
            i as int,
            entries_view(dest@),
            dpath@,
        ) matches Ok(p) && entries_view(d@) == p.0 && actions_view(a@) == p.1,
        r matches Err(e) ==> copy_from_spec(
            nodes_view(src@),
            i as int,
            entries_view(dest@),
            dpath@,
        ) matches Err(ev) && error_view(e) == ev,
    decreases src@, src@.len() - i,
{
    proof {
        lemma_nodes_view(src@);
    }
    if i == src.len() {
        let d = clone_entries(dest);
        let acts: Vec<Action> = Vec::new();
        proof {
            assert(actions_view(acts@) =~= Seq::<ActionView>::empty());
        }
        Ok((d, acts))
    } else {
        match copy_node(&src[i], dest, dpath) {
            Ok((d1, a1)) => {
                match copy_seq(src, i + 1, &d1, dpath) {
                    Ok((d2, a2)) => {
                        let mut acts = a1;
                        let mut a2 = a2;
                        acts.append(&mut a2);
                        proof {
                            let whole = copy_from_spec(
                                nodes_view(src@),
                                i as int,
                                entries_view(dest@),
                                dpath@,
                            )->Ok_0;
                            assert(actions_view(acts@) =~= whole.1);
                        }
                        Ok((d2, acts))
                    },
                    Err(e) => Err(e),
                }
            },
            Err(e) => Err(e),
        }
    }
}

/// Reconciles the source children against a snapshot of the destination
/// directory at `dest_path`, producing the destination state after the run
/// and the actions that bring the filesystem there, or the first conflict.
/// The outcome is exactly `copy_spec` over the views.
pub fn copy_files(children: &Vec<Node>, dest: &Vec<Entry>, dest_path: &String) -> (r: Result<
    (Vec<Entry>, Vec<Action>),
    SyncError,
>)
    ensures
        r is Ok <==> copy_spec(nodes_view(children@), entries_view(dest@), dest_path@) is Ok,
        r matches Ok((d, a)) ==> copy_spec(
            nodes_view(children@),
            entries_view(dest@),
            dest_path@,
        ) matches Ok(p) && entries_view(d@) == p.0 && actions_view(a@) == p.1,
        r matches Err(e) ==> copy_spec(
            nodes_view(children@),
            entries_view(dest@),
            dest_path@,
        ) matches Err(ev) && error_view(e) == ev,
{
    copy_seq(children, 0, dest, dest_path)
}

} // verus!
