//! The modelled file tree, its mathematical mirror, and its size measure.

use vstd::prelude::*;

verus! {

/// A node of the modelled file tree: a plain file with its text, or a
/// directory with its own subtree. A configuration file is an ordinary file
/// entry under the well-known name, and can be deleted like any other.
pub enum FsNode {
    File(String),
    Dir(FsTree),
}

/// One directory entry: a name, whether removing the named thing would fail
/// (it stands for a write-protected path), and the thing itself.
pub struct FsEntry {
    pub name: String,
    pub locked: bool,
    pub node: FsNode,
}

/// A directory of the modelled file tree: whether enumerating it succeeds,
/// and its entries.
pub struct FsTree {
    pub readable: bool,
    pub entries: Vec<FsEntry>,
}

/// Mathematical mirror of `FsNode`.
pub ghost enum NodeR {
    File(Seq<char>),
    Dir(TreeR),
}

/// Mathematical mirror of `FsEntry`.
pub ghost struct EntryR {
    pub name: Seq<char>,
    pub locked: bool,
    pub node: NodeR,
}

/// Mathematical mirror of `FsTree`.
pub ghost struct TreeR {
    pub readable: bool,
    pub entries: Seq<EntryR>,
}

pub open spec fn node_r(n: FsNode) -> NodeR
    decreases n,
{
    match n {
        FsNode::File(text) => NodeR::File(text@),
        FsNode::Dir(t) => NodeR::Dir(tree_r(t)),
    }
}

pub open spec fn entry_r(e: FsEntry) -> EntryR
    decreases e,
{
    EntryR { name: e.name@, locked: e.locked, node: node_r(e.node) }
}

pub open spec fn entries_r(es: Seq<FsEntry>) -> Seq<EntryR>
    decreases es,
{
    if es.len() == 0 {
        Seq::empty()
    } else {
        seq![entry_r(es[0])] + entries_r(es.drop_first())
    }
}

/// `entries_r` mirrors an entry sequence elementwise.
pub broadcast proof fn lemma_entries_r(es: Seq<FsEntry>)
    ensures
        (#[trigger] entries_r(es)).len() == es.len(),
        forall|i: int| 0 <= i < es.len() ==> entries_r(es)[i] == entry_r(es[i]),
    decreases es,
{
    if es.len() > 0 {
        lemma_entries_r(es.drop_first());
    }
}

pub open spec fn tree_r(t: FsTree) -> TreeR
    decreases t,
{
    TreeR { readable: t.readable, entries: entries_r(t.entries@) }
}

impl View for FsNode {
    type V = NodeR;

    open spec fn view(&self) -> NodeR {
        node_r(*self)
    }
}

impl View for FsEntry {
    type V = EntryR;

    open spec fn view(&self) -> EntryR {
        entry_r(*self)
    }
}

impl View for FsTree {
    type V = TreeR;

    open spec fn view(&self) -> TreeR {
        tree_r(*self)
    }
}

/// Size of a directory subtree: the directory itself plus all entries below.
/// The measure that shows the cleaner terminates.
pub open spec fn size_r(t: TreeR) -> nat
    decreases t, 1int,
{
    1 + size_entries(t.entries)
}

pub open spec fn size_entries(es: Seq<EntryR>) -> nat
    decreases es, 2int,
{
    if es.len() == 0 {
        0
    } else {
        size_node(es[0].node) + size_entries(es.drop_first())
    }
}

pub open spec fn size_node(n: NodeR) -> nat
    decreases n, 0int,
{
    match n {
        NodeR::File(_) => 1,
        NodeR::Dir(t) => size_r(t),
    }
}

/// Every node is of positive size.
pub proof fn lemma_size_node_pos(n: NodeR)
    ensures
        size_node(n) >= 1,
{
}

/// One entry's node never outweighs the whole entry list it sits in.
pub proof fn lemma_size_node_le_entries(es: Seq<EntryR>, i: int)
    requires
        0 <= i < es.len(),
    ensures
        size_node(es[i].node) <= size_entries(es),
    decreases es,
{
    if i == 0 {
    } else {
        lemma_size_node_le_entries(es.drop_first(), i - 1);
    }
}

/// Splitting an entry list splits its size.
pub proof fn lemma_size_entries_add(a: Seq<EntryR>, b: Seq<EntryR>)
    ensures
        size_entries(a + b) == size_entries(a) + size_entries(b),
    decreases a,
{
    if a.len() == 0 {
        assert(a + b =~= b);
    } else {
        lemma_size_entries_add(a.drop_first(), b);
        assert((a + b).drop_first() =~= a.drop_first() + b);
    }
}

} // verus!
