//! Kripke structures, and how they are built from an Aldebaran file.
use crate::aldebaran::{edge_triples, lemma_edge_triples_step, AutFile};
use crate::semantics::{box_states, diamond_states};
use crate::state_set::{members, StateSet};
use std::collections::{HashMap, HashSet};
use vstd::prelude::*;

verus! {

/// The successors of one state under one action label.
pub struct Successors {
    pub source: u32,
    pub label: String,
    pub targets: StateSet,
}

/// A Kripke structure: states, initial states, the labelled successor
/// relation, and a state labelling.
pub struct MixedKripkeStructure<L: Clone + Copy> {
    pub states: StateSet,
    pub init_states: StateSet,
    pub relations: Vec<Successors>,
    pub label: HashMap<u32, HashSet<L>>,
}

/// What a Kripke structure means: its states and its labelled transitions.
pub struct KripkeModel {
    pub states: Set<nat>,
    pub transitions: Set<(nat, Seq<char>, nat)>,
}

impl KripkeModel {
    /// Every transition joins two states of the model.
    pub open spec fn well_formed(&self) -> bool {
        forall|t: (nat, Seq<char>, nat)|
            #[trigger] self.transitions.contains(t) ==> self.states.contains(t.0)
                && self.states.contains(t.2)
    }
}

/// The entry has at least one target.
pub open spec fn has_target(e: Successors) -> bool {
    exists|t: nat| members(e.targets).contains(t)
}

/// The transitions that a list of successor entries holds.
pub open spec fn relation_triples(rel: Seq<Successors>) -> Set<(nat, Seq<char>, nat)> {
    Set::new(
        |t: (nat, Seq<char>, nat)|
            exists|i: int|
                0 <= i < rel.len() && (#[trigger] rel[i]).source == t.0 && rel[i].label@ == t.1
                    && members(rel[i].targets).contains(t.2),
    )
}

impl<L: Clone + Copy> MixedKripkeStructure<L> {
    pub open spec fn view(&self) -> KripkeModel {
        KripkeModel {
            states: members(self.states),
            transitions: relation_triples(self.relations@),
        }
    }

    /// Initial states are states, every entry joins states and has a source
    /// below the largest 32-bit value, and no two entries share a source and a
    /// label.
    pub open spec fn well_formed(&self) -> bool {
        &&& members(self.init_states).subset_of(members(self.states))
        &&& forall|i: int|
            0 <= i < self.relations.len() ==> members(self.states).contains(
                (#[trigger] self.relations[i]).source as nat,
            ) && members(self.relations[i].targets).subset_of(members(self.states))
                && self.relations[i].source < u32::MAX
        &&& forall|i: int, j: int|
            0 <= i < j < self.relations.len() ==> (#[trigger] self.relations[i]).source
                != (#[trigger] self.relations[j]).source || self.relations[i].label@
                != self.relations[j].label@
    }
}

proof fn lemma_triples_update(rel: Seq<Successors>, p: int, e: Successors, x: nat)
    requires
        0 <= p < rel.len(),
        e.source == rel[p].source,
        e.label@ == rel[p].label@,
        members(e.targets) == members(rel[p].targets).insert(x),
    ensures
        relation_triples(rel.update(p, e)) == relation_triples(rel).insert(
            (e.source as nat, e.label@, x),
        ),
{
    let nr = rel.update(p, e);
    let tr = (e.source as nat, e.label@, x);
    assert forall|t: (nat, Seq<char>, nat)|
        relation_triples(nr).contains(t) implies relation_triples(rel).insert(tr).contains(t) by {
        let i = choose|i: int|
            0 <= i < nr.len() && (#[trigger] nr[i]).source == t.0 && nr[i].label@ == t.1
                && members(nr[i].targets).contains(t.2);
        if i != p || t.2 != x {
            assert(0 <= i < rel.len() && rel[i].source == t.0 && rel[i].label@ == t.1
                && members(rel[i].targets).contains(t.2));
        }
    }
    assert forall|t: (nat, Seq<char>, nat)|
        relation_triples(rel).insert(tr).contains(t) implies relation_triples(nr).contains(t) by {
        if t == tr {
            assert(0 <= p < nr.len() && nr[p].source == t.0 && nr[p].label@ == t.1
                && members(nr[p].targets).contains(t.2));
        } else {
            let i = choose|i: int|
                0 <= i < rel.len() && (#[trigger] rel[i]).source == t.0 && rel[i].label@ == t.1
                    && members(rel[i].targets).contains(t.2);
            assert(0 <= i < nr.len() && nr[i].source == t.0 && nr[i].label@ == t.1
                && members(nr[i].targets).contains(t.2));
        }
    }
    assert(relation_triples(nr) =~= relation_triples(rel).insert(tr));
}

proof fn lemma_triples_push(rel: Seq<Successors>, e: Successors, x: nat)
    requires
        members(e.targets) == set![x],
    ensures
        relation_triples(rel.push(e)) == relation_triples(rel).insert((e.source as nat, e.label@, x)),
{
    let nr = rel.push(e);
    let tr = (e.source as nat, e.label@, x);
    assert forall|t: (nat, Seq<char>, nat)|
        relation_triples(nr).contains(t) implies relation_triples(rel).insert(tr).contains(t) by {
        let i = choose|i: int|
            0 <= i < nr.len() && (#[trigger] nr[i]).source == t.0 && nr[i].label@ == t.1
                && members(nr[i].targets).contains(t.2);
        if i < rel.len() {
            assert(0 <= i < rel.len() && rel[i].source == t.0 && rel[i].label@ == t.1
                && members(rel[i].targets).contains(t.2));
        }
    }
    assert forall|t: (nat, Seq<char>, nat)|
        relation_triples(rel).insert(tr).contains(t) implies relation_triples(nr).contains(t) by {
        if t == tr {
            let p = rel.len() as int;
            assert(0 <= p < nr.len() && nr[p].source == t.0 && nr[p].label@ == t.1
                && members(nr[p].targets).contains(t.2));
        } else {
            let i = choose|i: int|
                0 <= i < rel.len() && (#[trigger] rel[i]).source == t.0 && rel[i].label@ == t.1
                    && members(rel[i].targets).contains(t.2);
            assert(0 <= i < nr.len() && nr[i].source == t.0 && nr[i].label@ == t.1
                && members(nr[i].targets).contains(t.2));
        }
    }
    assert(relation_triples(nr) =~= relation_triples(rel).insert(tr));
}

/// `index` lists, for each source state, where its entries stand in `rel`.
pub open spec fn index_ok(rel: Seq<Successors>, index: Map<u32, Vec<usize>>) -> bool {
    &&& forall|s: u32, j: int|
        index.contains_key(s) && 0 <= j < index[s].len() ==> (#[trigger] index[s]@[j]) < rel.len()
            && rel[index[s]@[j] as int].source == s
    &&& forall|p: int|
        0 <= p < rel.len() ==> index.contains_key((#[trigger] rel[p]).source) && index[rel[p].source]@.contains(
            p as usize,
        )
}

/// The index of the entry for `source` and `label`, if there is one.
fn find_entry(rel: &Vec<Successors>, index: &HashMap<u32, Vec<usize>>, source: u32, label: &String) -> (r:
    Option<usize>)
    requires
        index_ok(rel@, index@),
    ensures
        match r {
            Some(i) => i < rel.len() && rel[i as int].source == source && rel[i as int].label@
                == label@,
            None => forall|i: int|
                0 <= i < rel.len() ==> (#[trigger] rel[i]).source != source || rel[i].label@
                    != label@,
        },
{
    let list = match index.get(&source) {
        Some(l) => l,
        None => {
            return None;
        },
    };
    let mut j: usize = 0;
    while j < list.len()
        invariant
            index_ok(rel@, index@),
            index@.contains_key(source),
            *list == index@[source],
            j <= list.len(),
            forall|k: int| 0 <= k < j ==> rel[(#[trigger] list@[k]) as int].label@ != label@,
        decreases list.len() - j,
    {
        let p = list[j];
        assert(index@[source]@[j as int] < rel.len());
        if rel[p].label == *label {
            return Some(p);
        }
        j = j + 1;
    }
    proof {
        assert forall|i: int| 0 <= i < rel.len() implies (#[trigger] rel[i]).source != source
            || rel[i].label@ != label@ by {
            if rel[i].source == source {
                assert(index@[rel[i].source]@.contains(i as usize));
                let k = choose|k: int| 0 <= k < list@.len() && list@[k] == i as usize;
                assert(rel[(list@[k]) as int].label@ != label@);
            }
        }
    }
    None
}

/// Builds the Kripke structure of an Aldebaran file: its first state is the
/// one initial state, and each edge adds its two ends and one transition.
pub fn from_aut_to_kripke(aut: &AutFile) -> (r: MixedKripkeStructure<()>)
    requires
        aut.states_fit(),
    ensures
        r.well_formed(),
        members(r.states) == aut.named_states(),
        members(r.init_states) == set![aut.header.first_state as nat],
        r.view().transitions == aut.transitions(),
        forall|i: int| 0 <= i < r.relations.len() ==> has_target(#[trigger] r.relations[i]),
        r.label@ == Map::<u32, HashSet<()>>::empty(),
{
    let mut states = StateSet::new();
    let mut init_states = StateSet::new();
    states.insert(aut.header.first_state as usize);
    init_states.insert(aut.header.first_state as usize);
    let mut relations: Vec<Successors> = Vec::new();
    let mut index: HashMap<u32, Vec<usize>> = HashMap::new();
    let mut i: usize = 0;
    while i < aut.edges.len()
        invariant
            aut.states_fit(),
            i <= aut.edges.len(),
            members(init_states) == set![aut.header.first_state as nat],
            members(states) == Set::new(
                |s: nat|
                    s == aut.header.first_state || exists|j: int|
                        0 <= j < i && (s == (#[trigger] aut.edges[j]).start_state || s
                            == aut.edges[j].end_state),
            ),
            relation_triples(relations@) == edge_triples(aut.edges@, i as int),
            forall|p: int| 0 <= p < relations.len() ==> has_target(#[trigger] relations[p]),
            index_ok(relations@, index@),
            forall|p: int|
                0 <= p < relations.len() ==> members(states).contains(
                    (#[trigger] relations[p]).source as nat,
                ) && members(relations[p].targets).subset_of(members(states))
                    && relations[p].source < u32::MAX,
            forall|p: int, q: int|
                0 <= p < q < relations.len() ==> (#[trigger] relations[p]).source
                    != (#[trigger] relations[q]).source || relations[p].label@
                    != relations[q].label@,
        decreases aut.edges.len() - i,
    {
        let edge = &aut.edges[i];
        let start = edge.start_state as usize;
        let end = edge.end_state as usize;
        states.insert(start);
        states.insert(end);
        let ghost before = relations@;
        proof {
            lemma_edge_triples_step(aut.edges@, i as int);
        }
        match find_entry(&relations, &index, edge.start_state as u32, &edge.label) {
            Some(p) => {
                relations[p].targets.insert(end);
                proof {
                    lemma_triples_update(before, p as int, relations@[p as int], end as nat);
                    assert(relations@ == before.update(p as int, relations@[p as int]));
                    assert(members(relations@[p as int].targets).contains(end as nat));
                    assert forall|q: int| 0 <= q < relations.len() implies has_target(#[trigger] relations[q]) by {
                        if q != p {
                            assert(relations[q] == before[q]);
                            assert(has_target(before[q]));
                        } else {
                            assert(members(relations[q].targets).contains(end as nat));
                        }
                    }
                }
            },
            None => {
                let mut targets = StateSet::new();
                targets.insert(end);
                let entry = Successors {
                    source: edge.start_state as u32,
                    label: edge.label.clone(),
                    targets,
                };
                let n = relations.len();
                let ghost old_index = index@;
                relations.push(entry);
                let mut list = match index.remove(&(edge.start_state as u32)) {
                    Some(l) => l,
                    None => Vec::new(),
                };
                let ghost old_list = list@;
                list.push(n);
                index.insert(edge.start_state as u32, list);
                proof {
                    let src = edge.start_state as u32;
                    assert(old_index.contains_key(src) ==> old_list == old_index[src]@);
                    assert(!old_index.contains_key(src) ==> old_list == Seq::<usize>::empty());
                    assert(index@ =~= old_index.insert(src, index@[src]));
                    assert forall|s2: u32, j: int|
                        index@.contains_key(s2) && 0 <= j < index@[s2].len() implies (#[trigger] index@[s2]@[j])
                        < relations.len() && relations[index@[s2]@[j] as int].source == s2 by {
                        if s2 == src {
                            if j < old_list.len() {
                                assert(index@[s2]@[j] == old_index[src]@[j]);
                            }
                        } else {
                            assert(index@[s2] == old_index[s2]);
                        }
                    }
                    assert forall|q: int| 0 <= q < relations.len() implies index@.contains_key(
                        (#[trigger] relations[q]).source,
                    ) && index@[relations[q].source]@.contains(q as usize) by {
                        if q < n {
                            assert(relations[q] == before[q]);
                            let s2 = relations[q].source;
                            assert(old_index[s2]@.contains(q as usize));
                            if s2 == src {
                                let k = choose|k: int| 0 <= k < old_list.len() && old_list[k] == q as usize;
                                assert(index@[s2]@[k] == q as usize);
                            } else {
                                assert(index@[s2] == old_index[s2]);
                            }
                        } else {
                            assert(index@[src]@[old_list.len() as int] == n);
                        }
                    }
                    assert forall|q: int| 0 <= q < relations.len() implies has_target(#[trigger] relations[q]) by {
                        if q < before.len() {
                            assert(relations[q] == before[q]);
                            assert(has_target(before[q]));
                        } else {
                            assert(members(relations[q].targets).contains(end as nat));
                        }
                    }
                    lemma_triples_push(before, entry, end as nat);
                }
            },
        }
        i = i + 1;
    }
    let label: HashMap<u32, HashSet<()>> = HashMap::new();
    MixedKripkeStructure { states, init_states, relations, label }
}

/// Entry `e` has label `a`, and one of its targets lies in `v` (for a
/// diamond) or outside `v` (for a box).
pub open spec fn entry_hits(e: Successors, a: Seq<char>, v: Set<nat>, diamond: bool) -> bool {
    e.label@ == a && if diamond {
        !members(e.targets).disjoint(v)
    } else {
        !members(e.targets).subset_of(v)
    }
}

/// The sources of the entries among the first `n` that hit.
pub open spec fn hit_sources(rel: Seq<Successors>, a: Seq<char>, v: Set<nat>, diamond: bool, n: int) -> Set<nat> {
    Set::new(
        |s: nat|
            exists|j: int|
                0 <= j < n && (#[trigger] rel[j]).source == s && entry_hits(rel[j], a, v, diamond),
    )
}

impl<L: Clone + Copy> MixedKripkeStructure<L> {
    proof fn lemma_diamond(&self, a: Seq<char>, v: Set<nat>)
        requires
            self.well_formed(),
        ensures
            diamond_states(self@, a, v) == hit_sources(self.relations@, a, v, true, self.relations.len() as int),
    {
        let rel = self.relations@;
        let n = self.relations.len() as int;
        let m = self@;
        assert forall|s: nat| #[trigger] diamond_states(m, a, v).contains(s) implies hit_sources(rel, a, v, true, n).contains(s) by {
            let t = choose|t: nat| m.transitions.contains((s, a, t)) && v.contains(t);
            let tr = (s, a, t);
            let j = choose|j: int|
                0 <= j < rel.len() && (#[trigger] rel[j]).source == tr.0 && rel[j].label@ == tr.1
                    && members(rel[j].targets).contains(tr.2);
            assert(entry_hits(rel[j], a, v, true));
        }
        assert forall|s: nat| #[trigger] hit_sources(rel, a, v, true, n).contains(s) implies diamond_states(m, a, v).contains(s) by {
            let j = choose|j: int|
                0 <= j < n && (#[trigger] rel[j]).source == s && entry_hits(rel[j], a, v, true);
            let t = choose|t: nat| members(rel[j].targets).contains(t) && v.contains(t);
            assert(m.transitions.contains((s, a, t)));
            assert(m.states.contains(s));
        }
        assert(diamond_states(m, a, v) =~= hit_sources(rel, a, v, true, n));
    }

    proof fn lemma_box(&self, a: Seq<char>, v: Set<nat>)
        requires
            self.well_formed(),
        ensures
            box_states(self@, a, v) == members(self.states).difference(
                hit_sources(self.relations@, a, v, false, self.relations.len() as int),
            ),
    {
        let rel = self.relations@;
        let n = self.relations.len() as int;
        let m = self@;
        let hits = hit_sources(rel, a, v, false, n);
        assert forall|s: nat| #[trigger] box_states(m, a, v).contains(s) implies !hits.contains(s) by {
            if hits.contains(s) {
                let j = choose|j: int|
                    0 <= j < n && (#[trigger] rel[j]).source == s && entry_hits(rel[j], a, v, false);
                let t = choose|t: nat| members(rel[j].targets).contains(t) && !v.contains(t);
                assert(m.transitions.contains((s, a, t)));
            }
        }
        assert forall|s: nat| m.states.contains(s) && !hits.contains(s) implies #[trigger] box_states(m, a, v).contains(s) by {
            assert forall|t: nat| m.transitions.contains((s, a, t)) implies v.contains(t) by {
                let tr = (s, a, t);
                let j = choose|j: int|
                    0 <= j < rel.len() && (#[trigger] rel[j]).source == tr.0 && rel[j].label@ == tr.1
                        && members(rel[j].targets).contains(tr.2);
                if !v.contains(t) {
                    assert(entry_hits(rel[j], a, v, false));
                    assert(hits.contains(s));
                }
            }
        }
        assert(box_states(m, a, v) =~= members(self.states).difference(hits));
    }

    /// The sources of all entries that hit.
    fn hit_sources_of(&self, a: &String, v: &StateSet, diamond: bool) -> (r: StateSet)
        requires
            self.well_formed(),
        ensures
            members(r) == hit_sources(self.relations@, a@, members(*v), diamond, self.relations.len() as int),
    {
        let mut r = StateSet::new();
        let mut i: usize = 0;
        let ghost rel = self.relations@;
        while i < self.relations.len()
            invariant
                self.well_formed(),
                rel == self.relations@,
                i <= self.relations.len(),
                members(r) == hit_sources(rel, a@, members(*v), diamond, i as int),
            decreases self.relations.len() - i,
        {
            let e = &self.relations[i];
            let hit = e.label == *a && if diamond {
                !e.targets.is_disjoint(v)
            } else {
                !e.targets.is_subset(v)
            };
            let ghost before = members(r);
            if hit {
                r.insert(e.source as usize);
            }
            proof {
                let vv = members(*v);
                let next = hit_sources(rel, a@, vv, diamond, i + 1);
                let prev = hit_sources(rel, a@, vv, diamond, i as int);
                assert(hit == entry_hits(rel[i as int], a@, vv, diamond));
                assert forall|s: nat| #[trigger] next.contains(s) implies members(r).contains(s) by {
                    let j = choose|j: int|
                        0 <= j < i + 1 && (#[trigger] rel[j]).source == s && entry_hits(rel[j], a@, vv, diamond);
                    if j < i {
                        assert(prev.contains(s));
                    }
                }
                assert forall|s: nat| #[trigger] members(r).contains(s) implies next.contains(s) by {
                    if before.contains(s) {
                        let j = choose|j: int|
                            0 <= j < i && (#[trigger] rel[j]).source == s && entry_hits(rel[j], a@, vv, diamond);
                        assert(0 <= j < i + 1 && rel[j].source == s);
                    } else {
                        assert(rel[i as int].source == s);
                    }
                }
                assert(members(r) =~= next);
            }
            i = i + 1;
        }
        r
    }

    /// The states with an `a`-successor in `v`.
    pub fn some_successor_in(&self, a: &String, v: &StateSet) -> (r: StateSet)
        requires
            self.well_formed(),
        ensures
            members(r) == diamond_states(self@, a@, members(*v)),
    {
        proof {
            self.lemma_diamond(a@, members(*v));
        }
        self.hit_sources_of(a, v, true)
    }

    /// The states whose `a`-successors all lie in `v`.
    pub fn all_successors_in(&self, a: &String, v: &StateSet) -> (r: StateSet)
        requires
            self.well_formed(),
        ensures
            members(r) == box_states(self@, a@, members(*v)),
    {
        proof {
            self.lemma_box(a@, members(*v));
        }
        let bad = self.hit_sources_of(a, v, false);
        let mut r = self.states.copy();
        r.difference_with(&bad);
        r
    }
}

} // verus!
