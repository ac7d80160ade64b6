//! The recursive cleaner over the modelled file tree.
//!
//! A visit of a directory first resolves the effective pattern list (a local
//! configuration file replaces the inherited list), then deletes what the
//! patterns match, then descends into every remaining subdirectory with the
//! effective list. A pattern is resolved under the visited directory: its
//! path components are matched level by level, and a pattern ending in `/`
//! removes directories only. An unreadable directory, a subdirectory that
//! cannot be entered during pattern expansion, or a hit on a write-protected
//! entry is a fault of that directory alone: it ends the work there, and the
//! parent's descent goes on with the remaining siblings. (A removal that
//! fails partway is modelled by the write-protected flag on the entry.)

use vstd::prelude::*;

use crate::config::{config_patterns, parse_config, pats_view};
use crate::pattern::{
    dir_only, is_valid_pattern, pattern_components, pattern_hits, pattern_matches, pattern_valid,
    split_pattern,
};
use crate::tree::{
    entries_r, entry_r, lemma_entries_r, lemma_size_node_le_entries, lemma_size_node_pos,
    size_entries, size_node, size_r, EntryR, FsEntry, FsNode, FsTree, NodeR, TreeR,
};

verus! {

/// Why a directory's visit failed: it could not be enumerated, removing the
/// named entry failed (a write-protected path), or a subdirectory of the
/// named entry's name could not be entered while a pattern was expanded.
pub enum CleanError {
    Unreadable,
    RemoveFailed(String),
    ExpandFailed(String),
}

/// Mathematical mirror of `CleanError`.
pub ghost enum FaultR {
    Unreadable,
    RemoveFailed(Seq<char>),
    ExpandFailed(Seq<char>),
}

impl View for CleanError {
    type V = FaultR;

    open spec fn view(&self) -> FaultR {
        match self {
            CleanError::Unreadable => FaultR::Unreadable,
            CleanError::RemoveFailed(n) => FaultR::RemoveFailed(n@),
            CleanError::ExpandFailed(n) => FaultR::ExpandFailed(n@),
        }
    }
}

pub open spec fn fault_r(e: Option<CleanError>) -> Option<FaultR> {
    match e {
        None => None,
        Some(x) => Some(x@),
    }
}

/// What the run of the cleaner on one directory comes to: the directory
/// afterwards, the fault this directory's own visit reported (if any), and
/// how many faults the whole visit, descendants included, logged.
pub ghost struct OutcomeR {
    pub tree: TreeR,
    pub fault: Option<FaultR>,
    pub faults: nat,
}

/// The well-known configuration filename.
pub open spec fn config_fname() -> Seq<char> {
    "cleanme"@
}

/// The text of the first file entry bearing the configuration filename, if
/// one is present. (A real directory holds at most one.)
pub open spec fn local_config(es: Seq<EntryR>) -> Option<Seq<char>>
    decreases es,
{
    if es.len() == 0 {
        None
    } else if es[0].name == config_fname() && es[0].node is File {
        Some(es[0].node->File_0)
    } else {
        local_config(es.drop_first())
    }
}

/// One pattern's component list swept over a directory's entries, front to
/// back. At the final component a hit entry is removed — unless the pattern
/// asks for directories only and the entry is a file — and a write-protected
/// hit ends the sweep with its name. At an earlier component a hit
/// subdirectory is entered and swept with the remaining components; one that
/// cannot be read ends the sweep with its name. A fault leaves every entry
/// not yet reached untouched.
pub open spec fn sweep(es: Seq<EntryR>, cs: Seq<Seq<char>>, rd: bool) -> (
    Seq<EntryR>,
    Option<FaultR>,
)
    decreases es,
{
    if cs.len() == 0 || es.len() == 0 {
        (es, None::<FaultR>)
    } else {
        let e = es[0];
        let rest = es.drop_first();
        if pattern_hits(cs[0], e.name) {
            if cs.len() == 1 {
                if rd && e.node is File {
                    let r = sweep(rest, cs, rd);
                    (seq![e] + r.0, r.1)
                } else if e.locked {
                    (es, Some(FaultR::RemoveFailed(e.name)))
                } else {
                    sweep(rest, cs, rd)
                }
            } else {
                match e.node {
                    NodeR::File(_) => {
                        let r = sweep(rest, cs, rd);
                        (seq![e] + r.0, r.1)
                    },
                    NodeR::Dir(t) => {
                        if !t.readable {
                            (es, Some(FaultR::ExpandFailed(e.name)))
                        } else {
                            let inner = sweep(t.entries, cs.drop_first(), rd);
                            let e2 = EntryR {
                                name: e.name,
                                locked: e.locked,
                                node: NodeR::Dir(TreeR { readable: t.readable, entries: inner.0 }),
                            };
                            if inner.1 is Some {
                                (seq![e2] + rest, inner.1)
                            } else {
                                let r = sweep(rest, cs, rd);
                                (seq![e2] + r.0, r.1)
                            }
                        }
                    },
                }
            }
        } else {
            let r = sweep(rest, cs, rd);
            (seq![e] + r.0, r.1)
        }
    }
}

/// One whole pattern applied to a directory's entries: an invalid pattern is
/// skipped silently; a valid one is split into components and swept.
pub open spec fn apply_pattern(es: Seq<EntryR>, p: Seq<char>) -> (Seq<EntryR>, Option<FaultR>) {
    if !is_valid_pattern(p) {
        (es, None::<FaultR>)
    } else {
        sweep(es, pattern_components(p), dir_only(p))
    }
}

/// The patterns applied in order; the first fault ends the whole deletion
/// phase of this directory.
pub open spec fn apply_patterns(es: Seq<EntryR>, ps: Seq<Seq<char>>) -> (
    Seq<EntryR>,
    Option<FaultR>,
)
    decreases ps,
{
    if ps.len() == 0 {
        (es, None::<FaultR>)
    } else {
        let r = apply_pattern(es, ps[0]);
        if r.1 is Some {
            r
        } else {
            apply_patterns(r.0, ps.drop_first())
        }
    }
}

/// The pattern list in force at a directory: its own configuration file if
/// one exists (even an empty one), else the inherited list.
pub open spec fn effective_scope(
    cfg: Option<Seq<char>>,
    inherited: Option<Seq<Seq<char>>>,
) -> Option<Seq<Seq<char>>> {
    match cfg {
        Some(c) => Some(config_patterns(c)),
        None => inherited,
    }
}

/// The deletion phase: without a scope no deletion is attempted at all.
pub open spec fn deletion_phase(es: Seq<EntryR>, scope: Option<Seq<Seq<char>>>) -> (
    Seq<EntryR>,
    Option<FaultR>,
) {
    match scope {
        None => (es, None::<FaultR>),
        Some(ps) => apply_patterns(es, ps),
    }
}

/// A sweep never grows the entries it sweeps.
pub proof fn lemma_sweep_size(es: Seq<EntryR>, cs: Seq<Seq<char>>, rd: bool)
    ensures
        size_entries(sweep(es, cs, rd).0) <= size_entries(es),
    decreases es,
{
    broadcast use vstd::seq::group_seq_axioms;

    if cs.len() == 0 || es.len() == 0 {
    } else {
        let e = es[0];
        let rest = es.drop_first();
        lemma_sweep_size(rest, cs, rd);
        let r = sweep(rest, cs, rd);
        crate::tree::lemma_size_entries_add(seq![e], r.0);
        assert(size_entries(seq![e]) == size_node(e.node)) by {
            assert(seq![e][0] == e);
            assert(seq![e].drop_first() =~= Seq::<EntryR>::empty());
            assert(size_entries(Seq::<EntryR>::empty()) == 0);
        }
        if pattern_hits(cs[0], e.name) && cs.len() > 1 {
            match e.node {
                NodeR::File(_) => {},
                NodeR::Dir(t) => {
                    if t.readable {
                        lemma_sweep_size(t.entries, cs.drop_first(), rd);
                        let inner = sweep(t.entries, cs.drop_first(), rd);
                        let e2 = EntryR {
                            name: e.name,
                            locked: e.locked,
                            node: NodeR::Dir(TreeR { readable: t.readable, entries: inner.0 }),
                        };
                        crate::tree::lemma_size_entries_add(seq![e2], rest);
                        crate::tree::lemma_size_entries_add(seq![e2], r.0);
                        assert(size_entries(seq![e2]) == size_node(e2.node)) by {
                            assert(seq![e2][0] == e2);
                            assert(seq![e2].drop_first() =~= Seq::<EntryR>::empty());
                            assert(size_entries(Seq::<EntryR>::empty()) == 0);
                        }
                    }
                },
            }
        }
    }
}

/// One pattern never grows the entries.
pub proof fn lemma_apply_pattern_size(es: Seq<EntryR>, p: Seq<char>)
    ensures
        size_entries(apply_pattern(es, p).0) <= size_entries(es),
{
    if is_valid_pattern(p) {
        lemma_sweep_size(es, pattern_components(p), dir_only(p));
    }
}

/// The whole deletion phase never grows the entries.
pub proof fn lemma_apply_patterns_size(es: Seq<EntryR>, ps: Seq<Seq<char>>)
    ensures
        size_entries(apply_patterns(es, ps).0) <= size_entries(es),
    decreases ps,
{
    if ps.len() > 0 {
        let r = apply_pattern(es, ps[0]);
        lemma_apply_pattern_size(es, ps[0]);
        if r.1 is None {
            lemma_apply_patterns_size(r.0, ps.drop_first());
        }
    }
}

/// One visit of the cleaner: an unreadable directory is left whole with a
/// fault; otherwise the effective scope is resolved (before any deletion),
/// the deletion phase runs, and on its success every remaining subdirectory
/// is visited with the effective scope. A child's faults are logged, counted,
/// and contained: they never become this directory's own fault.
pub open spec fn spec_clean(t: TreeR, inherited: Option<Seq<Seq<char>>>) -> OutcomeR
    decreases size_r(t), 0int,
        via spec_clean_dec
{
    if !t.readable {
        OutcomeR { tree: t, fault: Some(FaultR::Unreadable), faults: 1 }
    } else {
        let eff = effective_scope(local_config(t.entries), inherited);
        let del = deletion_phase(t.entries, eff);
        match del.1 {
            Some(f) => OutcomeR {
                tree: TreeR { readable: t.readable, entries: del.0 },
                fault: Some(f),
                faults: 1,
            },
            None => {
                let rec = clean_entries(del.0, eff);
                OutcomeR {
                    tree: TreeR { readable: t.readable, entries: rec.0 },
                    fault: None,
                    faults: rec.1,
                }
            },
        }
    }
}

/// The descent: every entry visited in order, faults summed.
pub open spec fn clean_entries(es: Seq<EntryR>, scope: Option<Seq<Seq<char>>>) -> (
    Seq<EntryR>,
    nat,
)
    decreases size_entries(es), 2int,
        via clean_entries_dec
{
    if es.len() == 0 {
        (Seq::<EntryR>::empty(), 0 as nat)
    } else {
        let first = clean_entry(es[0], scope);
        let rest = clean_entries(es.drop_first(), scope);
        (seq![first.0] + rest.0, first.1 + rest.1)
    }
}

/// One entry of the descent: a file is left as it is, a subdirectory is
/// cleaned with the effective scope.
pub open spec fn clean_entry(e: EntryR, scope: Option<Seq<Seq<char>>>) -> (EntryR, nat)
    decreases size_node(e.node), 1int,
{
    match e.node {
        NodeR::File(_) => (e, 0 as nat),
        NodeR::Dir(t) => {
            let o = spec_clean(t, scope);
            (EntryR { name: e.name, locked: e.locked, node: NodeR::Dir(o.tree) }, o.faults)
        },
    }
}

#[via_fn]
proof fn spec_clean_dec(t: TreeR, inherited: Option<Seq<Seq<char>>>) {
    if t.readable {
        match effective_scope(local_config(t.entries), inherited) {
            Some(ps) => lemma_apply_patterns_size(t.entries, ps),
            None => {},
        }
    }
}

#[via_fn]
proof fn clean_entries_dec(es: Seq<EntryR>, scope: Option<Seq<Seq<char>>>) {
    if es.len() > 0 {
        lemma_size_node_pos(es[0].node);
    }
}

/// `clean_entries` works elementwise.
pub proof fn lemma_clean_entries_index(es: Seq<EntryR>, scope: Option<Seq<Seq<char>>>)
    ensures
        clean_entries(es, scope).0.len() == es.len(),
        forall|j: int|
            0 <= j < es.len() ==> clean_entries(es, scope).0[j] == clean_entry(es[j], scope).0,
    decreases es,
{
    if es.len() > 0 {
        lemma_clean_entries_index(es.drop_first(), scope);
    }
}

/// The inherited scope as its mathematical value.
pub open spec fn scope_r(s: Option<Vec<String>>) -> Option<Seq<Seq<char>>> {
    match s {
        None => None,
        Some(v) => Some(pats_view(v@)),
    }
}

/// One component level of one pattern's sweep, mirroring `sweep` on the
/// component list from index `k` on.
fn sweep_exec(es: Vec<FsEntry>, cs: &Vec<String>, k: usize, rd: bool) -> (res: (
    Vec<FsEntry>,
    Option<CleanError>,
))
    requires
        k < cs@.len(),
    ensures
        ({
            let r = sweep(entries_r(es@), pats_view(cs@).skip(k as int), rd);
            entries_r(res.0@) == r.0 && fault_r(res.1) == r.1
        }),
    decreases size_entries(entries_r(es@)),
{
    broadcast use lemma_entries_r, crate::config::lemma_pats_view, vstd::seq::group_seq_axioms;

    let ghost src = entries_r(es@);
    let ghost csv = pats_view(cs@).skip(k as int);
    let mut es = es;
    let ghost orig = es@;
    if es.len() == 0 {
        return (es, None);
    }
    let e = es.remove(0);
    let ghost ev = e@;
    proof {
        assert(src[0] == ev);
        assert(src.drop_first() =~= entries_r(es@));
        assert(csv[0] == cs@[k as int]@);
        lemma_size_node_pos(ev.node);
        assert(size_entries(src) == size_node(ev.node) + size_entries(entries_r(es@)));
    }
    let hit = pattern_matches(cs[k].as_str(), e.name.as_str());
    let hitv = hit.is_some() && hit.unwrap();
    let is_final = k == cs.len() - 1;
    proof {
        assert(hitv == pattern_hits(csv[0], ev.name));
        assert(is_final == (csv.len() == 1));
    }
    let FsEntry { name, locked, node } = e;
    match node {
        FsNode::File(text) => {
            if hitv && is_final && !rd {
                if locked {
                    let nm = name.clone();
                    es.insert(0, FsEntry { name, locked, node: FsNode::File(text) });
                    proof {
                        assert(es@ =~= orig);
                        assert(entries_r(es@) == src);
                    }
                    return (es, Some(CleanError::RemoveFailed(nm)));
                } else {
                    let r = sweep_exec(es, cs, k, rd);
                    return r;
                }
            } else {
                let r = sweep_exec(es, cs, k, rd);
                let ghost kept = r.0@;
                let mut v = r.0;
                v.insert(0, FsEntry { name, locked, node: FsNode::File(text) });
                proof {
                    assert(v@.drop_first() =~= kept);
                    assert(v@[0]@ == ev);
                    assert(entries_r(v@) == seq![ev] + entries_r(kept));
                }
                return (v, r.1);
            }
        },
        FsNode::Dir(child) => {
            if hitv && is_final {
                if locked {
                    let nm = name.clone();
                    es.insert(0, FsEntry { name, locked, node: FsNode::Dir(child) });
                    proof {
                        assert(es@ =~= orig);
                        assert(entries_r(es@) == src);
                    }
                    return (es, Some(CleanError::RemoveFailed(nm)));
                } else {
                    let r = sweep_exec(es, cs, k, rd);
                    return r;
                }
            } else if hitv {
                // an earlier component: enter the subdirectory
                if !child.readable {
                    let nm = name.clone();
                    es.insert(0, FsEntry { name, locked, node: FsNode::Dir(child) });
                    proof {
                        assert(es@ =~= orig);
                        assert(entries_r(es@) == src);
                    }
                    return (es, Some(CleanError::ExpandFailed(nm)));
                }
                let FsTree { readable, entries } = child;
                proof {
                    assert(size_entries(entries_r(entries@)) < size_node(ev.node));
                    assert(pats_view(cs@).skip(k as int + 1) =~= csv.drop_first());
                }
                let inner = sweep_exec(entries, cs, k + 1, rd);
                let e2 = FsEntry {
                    name,
                    locked,
                    node: FsNode::Dir(FsTree { readable, entries: inner.0 }),
                };
                if inner.1.is_some() {
                    let ghost rest_v = es@;
                    es.insert(0, e2);
                    proof {
                        assert(es@.drop_first() =~= rest_v);
                        assert(entries_r(es@) == seq![es@[0]@] + entries_r(rest_v));
                    }
                    return (es, inner.1);
                } else {
                    let r = sweep_exec(es, cs, k, rd);
                    let ghost kept = r.0@;
                    let mut v = r.0;
                    v.insert(0, e2);
                    proof {
                        assert(v@.drop_first() =~= kept);
                        assert(entries_r(v@) == seq![v@[0]@] + entries_r(kept));
                    }
                    return (v, r.1);
                }
            } else {
                let r = sweep_exec(es, cs, k, rd);
                let ghost kept = r.0@;
                let mut v = r.0;
                v.insert(0, FsEntry { name, locked, node: FsNode::Dir(child) });
                proof {
                    assert(v@.drop_first() =~= kept);
                    assert(v@[0]@ == ev);
                    assert(entries_r(v@) == seq![ev] + entries_r(kept));
                }
                return (v, r.1);
            }
        },
    }
}

/// One whole pattern applied to a directory's entries.
fn apply_pattern_exec(es: Vec<FsEntry>, p: &String) -> (res: (Vec<FsEntry>, Option<CleanError>))
    ensures
        ({
            let r = apply_pattern(entries_r(es@), p@);
            entries_r(res.0@) == r.0 && fault_r(res.1) == r.1
        }),
{
    broadcast use crate::config::lemma_pats_view, vstd::seq::group_seq_axioms;

    if !pattern_valid(p.as_str()) {
        return (es, None);
    }
    let (cs, rd) = split_pattern(p.as_str());
    if cs.len() == 0 {
        return (es, None);
    }
    proof {
        assert(pats_view(cs@).skip(0) =~= pattern_components(p@));
    }
    sweep_exec(es, &cs, 0, rd)
}

/// The deletion phase of one directory: the patterns applied in order, the
/// first fault ending the phase.
#[verifier::loop_isolation(false)]
fn apply_patterns_exec(es: Vec<FsEntry>, ps: &Vec<String>) -> (res: (
    Vec<FsEntry>,
    Option<CleanError>,
))
    ensures
        ({
            let r = apply_patterns(entries_r(es@), pats_view(ps@));
            entries_r(res.0@) == r.0 && fault_r(res.1) == r.1
        }),
{
    broadcast use crate::config::lemma_pats_view, lemma_entries_r, vstd::seq::group_seq_axioms;

    let ghost src = entries_r(es@);
    let ghost pv = pats_view(ps@);
    let mut es = es;
    proof {
        assert(pv.skip(0) =~= pv);
    }
    let mut k: usize = 0;
    while k < ps.len()
        invariant
            k <= ps@.len(),
            ({
                let r = apply_patterns(entries_r(es@), pv.skip(k as int));
                apply_patterns(src, pv) == ((r.0, r.1))
            }),
        decreases ps@.len() - k,
    {
        proof {
            assert(pv.skip(k as int)[0] == pv[k as int]);
            assert(pv.skip(k as int).drop_first() =~= pv.skip(k as int + 1));
        }
        let r = apply_pattern_exec(es, &ps[k]);
        es = r.0;
        if r.1.is_some() {
            return (es, r.1);
        }
        k = k + 1;
    }
    proof {
        assert(pv.skip(k as int) =~= Seq::<Seq<char>>::empty());
    }
    (es, None)
}

/// The pattern list a directory's own configuration file declares, if the
/// directory holds one: the first file entry named `cleanme`, parsed.
#[verifier::loop_isolation(false)]
fn find_config(es: &Vec<FsEntry>) -> (r: Option<Vec<String>>)
    ensures
        ({
            match local_config(entries_r(es@)) {
                None => r is None,
                Some(c) => r is Some && pats_view(r->0@) == config_patterns(c),
            }
        }),
{
    broadcast use lemma_entries_r, vstd::seq::group_seq_axioms;

    let cfg: String = "cleanme".to_owned();
    let ghost src = entries_r(es@);
    proof {
        assert(src.skip(0) =~= src);
    }
    let mut j: usize = 0;
    while j < es.len()
        invariant
            j <= es@.len(),
            cfg@ == config_fname(),
            src == entries_r(es@),
            local_config(src) == local_config(src.skip(j as int)),
        decreases es@.len() - j,
    {
        proof {
            assert(src.skip(j as int)[0] == src[j as int]);
            assert(src.skip(j as int).drop_first() =~= src.skip(j as int + 1));
        }
        let is_config = es[j].name == cfg;
        if is_config {
            match &es[j].node {
                FsNode::File(text) => {
                    return Some(parse_config(text.as_str()));
                },
                FsNode::Dir(_) => {},
            }
        }
        j = j + 1;
    }
    proof {
        assert(src.skip(j as int) =~= Seq::<EntryR>::empty());
    }
    None
}

/// The list in force: a local list, even an empty one, replaces the
/// inherited one.
pub fn select_scope<'a>(local: &'a Option<Vec<String>>, inherited: &'a Option<Vec<String>>) -> (r:
    &'a Option<Vec<String>>)
    ensures
        *r == (if *local is Some {
            *local
        } else {
            *inherited
        }),
{
    if local.is_some() {
        local
    } else {
        inherited
    }
}

/// Clean one directory and everything below it. The directory is taken as a
/// value and handed back cleaned, together with the fault its own visit
/// reported: `Unreadable` when the directory could not be enumerated (it is
/// then left whole), `RemoveFailed` with the failing name when a hit entry
/// was write-protected, `ExpandFailed` with its name when a subdirectory
/// could not be entered while a pattern was expanded. A child's fault never
/// becomes the parent's: the descent goes on with the remaining siblings.
#[verifier::loop_isolation(false)]
pub fn clean_tree(t: FsTree, inherited: &Option<Vec<String>>) -> (res: (FsTree, Option<
    CleanError,
>))
    ensures
        ({
            let o = spec_clean(t@, scope_r(*inherited));
            res.0@ == o.tree && fault_r(res.1) == o.fault
        }),
    decreases size_r(t@),
{
    broadcast use lemma_entries_r, vstd::seq::group_seq_axioms;

    let ghost tv = t@;
    let ghost inh = scope_r(*inherited);
    if !t.readable {
        return (t, Some(CleanError::Unreadable));
    }
    let FsTree { readable, entries } = t;
    let es = entries;
    let local = find_config(&es);
    let eff: &Option<Vec<String>> = select_scope(&local, inherited);
    let ghost eff_r = effective_scope(local_config(tv.entries), inh);
    proof {
        assert(entries_r(es@) == tv.entries);
        assert(scope_r(*eff) == eff_r);
    }
    let (mut es, fault) = match eff {
        Some(ps) => apply_patterns_exec(es, ps),
        None => (es, None),
    };
    let ghost del = deletion_phase(tv.entries, eff_r);
    if fault.is_some() {
        let out = FsTree { readable, entries: es };
        proof {
            assert(out@.entries == del.0);
        }
        return (out, fault);
    }
    let ghost es0 = entries_r(es@);
    proof {
        assert(es0 == del.0);
        match eff_r {
            Some(ps) => lemma_apply_patterns_size(tv.entries, ps),
            None => {},
        }
        assert(size_entries(es0) <= size_entries(tv.entries));
    }
    let mut i: usize = 0;
    while i < es.len()
        invariant
            i <= es@.len(),
            es@.len() == es0.len(),
            scope_r(*eff) == eff_r,
            size_entries(es0) < size_r(tv),
            forall|j: int| i <= j < es0.len() ==> entries_r(es@)[j] == es0[j],
            forall|j: int| 0 <= j < i ==> entries_r(es@)[j] == clean_entry(es0[j], eff_r).0,
        decreases es@.len() - i,
    {
        let ghost pre = es@;
        let e = es.remove(i);
        let ghost ev = e@;
        proof {
            assert(ev == es0[i as int]);
        }
        let FsEntry { name, locked, node } = e;
        match node {
            FsNode::File(text) => {
                es.insert(i, FsEntry { name, locked, node: FsNode::File(text) });
                proof {
                    assert(es@ =~= pre);
                    assert(entries_r(es@)[i as int] == clean_entry(es0[i as int], eff_r).0);
                }
            },
            FsNode::Dir(child) => {
                proof {
                    lemma_size_node_le_entries(es0, i as int);
                    assert(es0[i as int].node == NodeR::Dir(child@));
                    assert(size_node(es0[i as int].node) == size_r(child@));
                    assert(size_r(child@) < size_r(tv));
                }
                let r = clean_tree(child, eff);
                es.insert(i, FsEntry { name, locked, node: FsNode::Dir(r.0) });
                proof {
                    let ghost newe = FsEntry { name, locked, node: FsNode::Dir(r.0) };
                    assert(es@ =~= pre.update(i as int, newe));
                    assert(newe@ == EntryR {
                        name: ev.name,
                        locked: ev.locked,
                        node: NodeR::Dir(spec_clean(child@, eff_r).tree),
                    });
                    assert(entries_r(es@)[i as int] == clean_entry(es0[i as int], eff_r).0);
                }
            },
        }
        i = i + 1;
        proof {
            assert forall|j: int| 0 <= j < es0.len() && j != i - 1 implies es@[j] == pre[j] by {}
            assert forall|j: int| i <= j < es0.len() implies entries_r(es@)[j] == es0[j] by {
                assert(entries_r(es@)[j] == entry_r(es@[j]));
                assert(entries_r(pre)[j] == entry_r(pre[j]));
            }
            assert forall|j: int| 0 <= j < i implies entries_r(es@)[j] == clean_entry(
                es0[j],
                eff_r,
            ).0 by {
                if j < i - 1 {
                    assert(entries_r(es@)[j] == entry_r(es@[j]));
                    assert(entries_r(pre)[j] == entry_r(pre[j]));
                } else {
                    assert(j == i - 1);
                }
            }
        }
    }
    proof {
        lemma_clean_entries_index(es0, eff_r);
        assert(entries_r(es@) =~= clean_entries(es0, eff_r).0);
    }
    (FsTree { readable, entries: es }, None)
}

} // verus!
