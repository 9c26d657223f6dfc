//! Snapshot model of a filesystem tree.
//!
//! `Node` describes a source entry as captured by a scan: files carry their
//! name, absolute path and modification time; directories additionally carry
//! their children in discovery order. `Entry` describes a destination entry;
//! it also records whether a file is marked read-only, which the copy
//! reconciler must clear before overwriting. The ghost mirrors `NodeView` and
//! `EntryView` state the same data over `Seq`, and every contract in the
//! crate speaks in terms of them.

use vstd::prelude::*;

verus! {

/// One source filesystem entry as of scan time.
#[derive(Debug, PartialEq)]
pub enum Node {
    File { name: String, path: String, mtime: u64 },
    Directory { name: String, path: String, mtime: u64, children: Vec<Node> },
}

/// One destination filesystem entry as of scan time.
#[derive(Debug, PartialEq)]
pub enum Entry {
    File { name: String, mtime: u64, readonly: bool },
    Dir { name: String, mtime: u64, entries: Vec<Entry> },
}

/// Ghost mirror of `Node`.
pub enum NodeView {
    File { name: Seq<char>, path: Seq<char>, mtime: u64 },
    Directory { name: Seq<char>, path: Seq<char>, mtime: u64, children: Seq<NodeView> },
}

/// Ghost mirror of `Entry`.
pub enum EntryView {
    File { name: Seq<char>, mtime: u64, readonly: bool },
    Dir { name: Seq<char>, mtime: u64, entries: Seq<EntryView> },
}

pub open spec fn node_view(n: Node) -> NodeView
    decreases n,
{
    match n {
        Node::File { name, path, mtime } => NodeView::File { name: name@, path: path@, mtime },
        Node::Directory { name, path, mtime, children } => NodeView::Directory {
            name: name@,
            path: path@,
            mtime,
            children: nodes_view(children@),
        },
    }
}

pub open spec fn nodes_view(s: Seq<Node>) -> Seq<NodeView>
    decreases s,
{
    if s.len() == 0 {
        Seq::empty()
    } else {
        seq![node_view(s[0])] + nodes_view(s.subrange(1, s.len() as int))
    }
}

pub open spec fn entry_view(e: Entry) -> EntryView
    decreases e,
{
    match e {
        Entry::File { name, mtime, readonly } => EntryView::File { name: name@, mtime, readonly },
        Entry::Dir { name, mtime, entries } => EntryView::Dir {
            name: name@,
            mtime,
            entries: entries_view(entries@),
        },
    }
}

pub open spec fn entries_view(s: Seq<Entry>) -> Seq<EntryView>
    decreases s,
{
    if s.len() == 0 {
        Seq::empty()
    } else {
        seq![entry_view(s[0])] + entries_view(s.subrange(1, s.len() as int))
    }
}

impl NodeView {
    /// The entry name, for either variant.
    pub open spec fn name(self) -> Seq<char> {
        match self {
            NodeView::File { name, .. } => name,
            NodeView::Directory { name, .. } => name,
        }
    }

    /// The recorded modification time, for either variant.
    pub open spec fn mtime(self) -> u64 {
        match self {
            NodeView::File { mtime, .. } => mtime,
            NodeView::Directory { mtime, .. } => mtime,
        }
    }
}

impl EntryView {
    /// The entry name, for either variant.
    pub open spec fn name(self) -> Seq<char> {
        match self {
            EntryView::File { name, .. } => name,
            EntryView::Dir { name, .. } => name,
        }
    }

    /// The recorded modification time, for either variant.
    pub open spec fn mtime(self) -> u64 {
        match self {
            EntryView::File { mtime, .. } => mtime,
            EntryView::Dir { mtime, .. } => mtime,
        }
    }
}

/// Sibling names are pairwise distinct.
pub open spec fn distinct_names(s: Seq<NodeView>) -> bool {
    forall|i: int, j: int| 0 <= i < j < s.len() ==> s[i].name() != s[j].name()
}

/// A scanned source node is well formed: at every directory level the
/// children's names are pairwise distinct, as the filesystem guarantees.
pub open spec fn node_wf(n: NodeView) -> bool
    decreases n, 0int,
{
    match n {
        NodeView::File { .. } => true,
        NodeView::Directory { children, .. } => nodes_wf(children),
    }
}

/// Every node of the forest is well formed and sibling names are distinct.
pub open spec fn nodes_wf(s: Seq<NodeView>) -> bool
    decreases s, 1int,
{
    distinct_names(s) && all_nodes_wf(s)
}

pub open spec fn all_nodes_wf(s: Seq<NodeView>) -> bool
    decreases s, 0int,
{
    if s.len() == 0 {
        true
    } else {
        node_wf(s[0]) && all_nodes_wf(s.subrange(1, s.len() as int))
    }
}

pub proof fn lemma_all_nodes_wf_index(s: Seq<NodeView>, i: int)
    requires
        all_nodes_wf(s),
        0 <= i < s.len(),
    ensures
        node_wf(s[i]),
    decreases s.len(),
{
    if i > 0 {
        lemma_all_nodes_wf_index(s.subrange(1, s.len() as int), i - 1);
    }
}

/// The view of a node sequence matches it index by index.
pub proof fn lemma_nodes_view(s: Seq<Node>)
    ensures
        nodes_view(s).len() == s.len(),
        forall|i: int| 0 <= i < s.len() ==> #[trigger] nodes_view(s)[i] == node_view(s[i]),
    decreases s.len(),
{
    if s.len() > 0 {
        lemma_nodes_view(s.subrange(1, s.len() as int));
        assert forall|i: int| 0 <= i < s.len() implies #[trigger] nodes_view(s)[i] == node_view(
            s[i],
        ) by {
            if i > 0 {
                assert(nodes_view(s)[i] == nodes_view(s.subrange(1, s.len() as int))[i - 1]);
                assert(s.subrange(1, s.len() as int)[i - 1] == s[i]);
            }
        }
    }
}

/// The view of an entry sequence matches it index by index.
pub proof fn lemma_entries_view(s: Seq<Entry>)
    ensures
        entries_view(s).len() == s.len(),
        forall|i: int| 0 <= i < s.len() ==> #[trigger] entries_view(s)[i] == entry_view(s[i]),
    decreases s.len(),
{
    if s.len() > 0 {
        lemma_entries_view(s.subrange(1, s.len() as int));
        assert forall|i: int| 0 <= i < s.len() implies #[trigger] entries_view(s)[i] == entry_view(
            s[i],
        ) by {
            if i > 0 {
                assert(entries_view(s)[i] == entries_view(s.subrange(1, s.len() as int))[i - 1]);
                assert(s.subrange(1, s.len() as int)[i - 1] == s[i]);
            }
        }
    }
}

/// The name of a source node, shared by both variants.
pub fn node_name(n: &Node) -> (r: &String)
    ensures
        r@ == node_view(*n).name(),
{
    match n {
        Node::File { name, .. } => name,
        Node::Directory { name, .. } => name,
    }
}

/// The name of an entry, shared by both variants.
pub fn entry_name(e: &Entry) -> (r: &String)
    ensures
        r@ == entry_view(*e).name(),
{
    match e {
        Entry::File { name, .. } => name,
        Entry::Dir { name, .. } => name,
    }
}

/// The recorded modification time of an entry, shared by both variants.
pub fn entry_mtime(e: &Entry) -> (r: u64)
    ensures
        r == entry_view(*e).mtime(),
{
    match e {
        Entry::File { mtime, .. } => *mtime,
        Entry::Dir { mtime, .. } => *mtime,
    }
}

/// A deep copy of one destination entry.
pub fn clone_entry(e: &Entry) -> (r: Entry)
    ensures
        entry_view(r) == entry_view(*e),
    decreases *e,
{
    match e {
        Entry::File { name, mtime, readonly } => Entry::File {
            name: name.clone(),
            mtime: *mtime,
            readonly: *readonly,
        },
        Entry::Dir { name, mtime, entries } => Entry::Dir {
            name: name.clone(),
            mtime: *mtime,
            entries: clone_entries(entries),
        },
    }
}

/// A deep copy of a destination entry sequence.
pub fn clone_entries(v: &Vec<Entry>) -> (r: Vec<Entry>)
    ensures
        entries_view(r@) == entries_view(v@),
        r@.len() == v@.len(),
    decreases v@,
{
    let mut r: Vec<Entry> = Vec::new();
    let mut i: usize = 0;
    while i < v.len()
        invariant
            i <= v.len(),
            r@.len() == i,
            forall|k: int| 0 <= k < i ==> entry_view(#[trigger] r@[k]) == entry_view(v@[k]),
        decreases v@.len() - i,
    {
        r.push(clone_entry(&v[i]));
        i = i + 1;
    }
    proof {
        lemma_entries_view(r@);
        lemma_entries_view(v@);
        assert(entries_view(r@) =~= entries_view(v@));
    }
    r
}

/// The kind, name, path, modification time and (for directories) children of
/// a source node, in one tuple.
pub fn get_node_info(node: &Node) -> (r: (&str, &String, &String, u64, Option<&Vec<Node>>))
    ensures
        node matches Node::File { name, path, mtime } ==> r.0@ == "File"@ && r.1 == name && r.2
            == path && r.3 == mtime && r.4 is None,
        node matches Node::Directory { name, path, mtime, children } ==> r.0@ == "Directory"@
            && r.1 == name && r.2 == path && r.3 == mtime && r.4 == Some(children),
{
    match node {
        Node::File { name, path, mtime } => ("File", name, path, *mtime, None),
        Node::Directory { name, path, mtime, children } => (
            "Directory",
            name,
            path,
            *mtime,
            Some(children),
        ),
    }
}

} // verus!
