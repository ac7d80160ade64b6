//! The laws of the cleaner, stated over its mathematical model and proved
//! once and for all.

use vstd::prelude::*;

use crate::cleaner::{
    clean_entries, clean_entry, deletion_phase, effective_scope, lemma_clean_entries_index,
    local_config, spec_clean,
};
use crate::config::config_patterns;
use crate::tree::{EntryR, NodeR, TreeR};

verus! {

/// A directory with its own configuration file is cleaned the same under any
/// inherited scope: the local list replaces, never merges with, the inherited
/// one, for the directory and everything below it. Siblings of the directory
/// are untouched by this, since the inherited list alone descends to them.
pub proof fn lemma_local_config_overrides(
    t: TreeR,
    s1: Option<Seq<Seq<char>>>,
    s2: Option<Seq<Seq<char>>>,
)
    requires
        local_config(t.entries) is Some,
    ensures
        spec_clean(t, s1) == spec_clean(t, s2),
{
}

/// Cleaning rooted above a directory with its own configuration file cleans
/// that directory exactly as cleaning it alone would, under any inherited
/// scope at all: the descent hands the child over whole, and the child's own
/// list decides.
pub proof fn lemma_rooted_above(
    es: Seq<EntryR>,
    scope: Option<Seq<Seq<char>>>,
    other: Option<Seq<Seq<char>>>,
    i: int,
)
    requires
        0 <= i < es.len(),
        es[i].node is Dir,
        local_config(es[i].node->Dir_0.entries) is Some,
    ensures
        clean_entries(es, scope).0[i].node == NodeR::Dir(
            spec_clean(es[i].node->Dir_0, other).tree,
        ),
{
    lemma_clean_entries_index(es, scope);
    lemma_local_config_overrides(es[i].node->Dir_0, scope, other);
}

/// A faulting child never stops its siblings: the descent visits every entry,
/// each child cleaned on its own, and an unreadable subdirectory is merely
/// left whole while every other entry is still processed.
pub proof fn lemma_descent_isolates_faults(
    es: Seq<EntryR>,
    scope: Option<Seq<Seq<char>>>,
    i: int,
)
    requires
        0 <= i < es.len(),
    ensures
        clean_entries(es, scope).0.len() == es.len(),
        clean_entries(es, scope).0[i] == clean_entry(es[i], scope).0,
        (es[i].node is Dir && !es[i].node->Dir_0.readable) ==> clean_entries(es, scope).0[i]
            == es[i],
{
    lemma_clean_entries_index(es, scope);
}

/// An empty local configuration file suppresses deletion in its directory,
/// whatever an ancestor's scope would have deleted: no entry is removed, no
/// deletion fault can arise, and the empty list is what descends into the
/// children.
pub proof fn lemma_empty_config_suppresses(t: TreeR, inh: Option<Seq<Seq<char>>>)
    requires
        t.readable,
        local_config(t.entries) is Some,
        config_patterns(local_config(t.entries)->0).len() == 0,
    ensures
        spec_clean(t, inh).fault is None,
        spec_clean(t, inh).tree.entries.len() == t.entries.len(),
        forall|i: int|
            0 <= i < t.entries.len() ==> {
                &&& #[trigger] spec_clean(t, inh).tree.entries[i].name == t.entries[i].name
                &&& spec_clean(t, inh).tree.entries[i].locked == t.entries[i].locked
                &&& (spec_clean(t, inh).tree.entries[i].node is Dir <==> t.entries[i].node is Dir)
            },
{
    let eff = effective_scope(local_config(t.entries), inh);
    lemma_clean_entries_index(t.entries, eff);
}

/// Nothing in the tree is matched or faulting under the scope: the directory
/// is readable, its deletion phase deletes nothing and reports nothing, and
/// the same holds below with the effective scope.
pub open spec fn quiescent(t: TreeR, s: Option<Seq<Seq<char>>>) -> bool
    decreases t, 1int,
{
    &&& t.readable
    &&& deletion_phase(t.entries, effective_scope(local_config(t.entries), s)) == ((
        t.entries,
        None::<crate::cleaner::FaultR>,
    ))
    &&& quiescent_entries(t.entries, effective_scope(local_config(t.entries), s))
}

pub open spec fn quiescent_entries(es: Seq<EntryR>, s: Option<Seq<Seq<char>>>) -> bool
    decreases es, 2int,
{
    if es.len() == 0 {
        true
    } else {
        quiescent_node(es[0].node, s) && quiescent_entries(es.drop_first(), s)
    }
}

pub open spec fn quiescent_node(n: NodeR, s: Option<Seq<Seq<char>>>) -> bool
    decreases n, 0int,
{
    match n {
        NodeR::File(_) => true,
        NodeR::Dir(t) => quiescent(t, s),
    }
}

/// Over a tree in which no matching patterns remain, a run of the cleaner
/// produces no faults and no changes at all. In particular, a second run
/// after a run that left the tree quiescent is such a run.
pub proof fn lemma_quiescent_run_is_noop(t: TreeR, s: Option<Seq<Seq<char>>>)
    requires
        quiescent(t, s),
    ensures
        spec_clean(t, s) == (crate::cleaner::OutcomeR { tree: t, fault: None, faults: 0 as nat }),
    decreases t, 1int,
{
    let eff = effective_scope(local_config(t.entries), s);
    lemma_quiescent_entries(t.entries, eff);
    assert(clean_entries(t.entries, eff) == ((t.entries, 0 as nat)));
}

proof fn lemma_quiescent_entries(es: Seq<EntryR>, s: Option<Seq<Seq<char>>>)
    requires
        quiescent_entries(es, s),
    ensures
        clean_entries(es, s) == ((es, 0 as nat)),
    decreases es, 2int,
{
    if es.len() > 0 {
        lemma_quiescent_node(es[0], s);
        lemma_quiescent_entries(es.drop_first(), s);
        assert(seq![es[0]] + es.drop_first() =~= es);
    }
}

proof fn lemma_quiescent_node(e: EntryR, s: Option<Seq<Seq<char>>>)
    requires
        quiescent_node(e.node, s),
    ensures
        clean_entry(e, s) == ((e, 0 as nat)),
    decreases e.node, 1int,
{
    match e.node {
        NodeR::File(_) => {},
        NodeR::Dir(t) => {
            lemma_quiescent_run_is_noop(t, s);
        },
    }
}

} // verus!
