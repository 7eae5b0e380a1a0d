//! What flattening guarantees, stated over the spec functions and proved.
use vstd::prelude::*;

use crate::flatten::{flat_children, flat_generations, flat_spec};
use crate::model::{node_entry, BootSpecification, EntryView, Generation, Specialisation};

verus! {

broadcast use vstd::std_specs::vec::group_vec_axioms;

/// Every node of the tree rooted at `s` is a version 1 document.
pub open spec fn all_v1(s: BootSpecification) -> bool
    decreases s,
{
    match s {
        BootSpecification::Unsupported { .. } => false,
        BootSpecification::V1(v) => children_all_v1(v.specialisations@),
    }
}

/// Every node of the subtrees `cs` is a version 1 document.
pub open spec fn children_all_v1(cs: Seq<Specialisation>) -> bool
    decreases cs,
{
    if cs.len() == 0 {
        true
    } else {
        children_all_v1(cs.subrange(0, cs.len() - 1)) && all_v1(cs[cs.len() - 1].specification)
    }
}

/// The number of specialisations at every depth below `s`.
pub open spec fn nested_count(s: BootSpecification) -> nat
    decreases s,
{
    match s {
        BootSpecification::Unsupported { .. } => 0,
        BootSpecification::V1(v) => children_count(v.specialisations@),
    }
}

/// The number of nodes in the subtrees `cs`.
pub open spec fn children_count(cs: Seq<Specialisation>) -> nat
    decreases cs,
{
    if cs.len() == 0 {
        0
    } else {
        children_count(cs.subrange(0, cs.len() - 1)) + 1 + nested_count(
            cs[cs.len() - 1].specification,
        )
    }
}

/// The entry of a generation's own root node, which is version 1.
pub open spec fn root_entry(g: Generation) -> EntryView {
    node_entry(g.specification->V1_0, g.index, g.profile@, None)
}

/// A generation whose document is version 1 and has no specialisations.
pub open spec fn is_flat(g: Generation) -> bool {
    &&& g.specification is V1
    &&& g.specification->V1_0.specialisations@.len() == 0
}

proof fn lemma_tree(s: BootSpecification, index: u64, profile: Seq<char>, name: Option<Seq<char>>)
    ensures
        flat_spec(s, index, profile, name) is Ok <==> all_v1(s),
        all_v1(s) ==> {
            let es = flat_spec(s, index, profile, name)->Ok_0;
            &&& es.len() == 1 + nested_count(s)
            &&& es[0] == node_entry(s->V1_0, index, profile, name)
            &&& forall|k: int|
                0 <= k < es.len() ==> (#[trigger] es[k]).generation_index == index
                    && es[k].profile_name == profile
            &&& forall|k: int| 0 < k < es.len() ==> (#[trigger] es[k]).specialisation_name is Some
        },
    decreases s,
{
    if let BootSpecification::V1(v) = s {
        lemma_children(v.specialisations@, index, profile);
        if all_v1(s) {
            let es = flat_spec(s, index, profile, name)->Ok_0;
            let ce = flat_children(v.specialisations@, index, profile)->Ok_0;
            assert(es == seq![node_entry(v, index, profile, name)] + ce);
            assert forall|k: int| 0 < k < es.len() implies #[trigger] es[k] == ce[k - 1] by {}
        }
    }
}

proof fn lemma_children(cs: Seq<Specialisation>, index: u64, profile: Seq<char>)
    ensures
        flat_children(cs, index, profile) is Ok <==> children_all_v1(cs),
        children_all_v1(cs) ==> {
            let es = flat_children(cs, index, profile)->Ok_0;
            &&& es.len() == children_count(cs)
            &&& forall|k: int|
                0 <= k < es.len() ==> (#[trigger] es[k]).generation_index == index
                    && es[k].profile_name == profile
                    && es[k].specialisation_name is Some
        },
    decreases cs,
{
    if cs.len() > 0 {
        let last = cs[cs.len() - 1];
        lemma_children(cs.subrange(0, cs.len() - 1), index, profile);
        lemma_tree(last.specification, index, profile, Some(last.name@));
    }
}

proof fn lemma_children_layout(cs: Seq<Specialisation>, index: u64, profile: Seq<char>, j: int)
    requires
        children_all_v1(cs),
        0 <= j < cs.len(),
    ensures
        ({
            let es = flat_children(cs, index, profile)->Ok_0;
            let start = children_count(cs.take(j)) as int;
            let end = start + 1 + nested_count(cs[j].specification);
            &&& all_v1(cs[j].specification)
            &&& end <= es.len()
            &&& es.subrange(start, end) == flat_spec(
                cs[j].specification,
                index,
                profile,
                Some(cs[j].name@),
            )->Ok_0
        }),
    decreases cs.len(),
{
    let front = cs.subrange(0, cs.len() - 1);
    let last = cs[cs.len() - 1];
    lemma_children(front, index, profile);
    lemma_children(cs, index, profile);
    lemma_tree(last.specification, index, profile, Some(last.name@));
    let es = flat_children(cs, index, profile)->Ok_0;
    let fe = flat_children(front, index, profile)->Ok_0;
    let be = flat_spec(last.specification, index, profile, Some(last.name@))->Ok_0;
    assert(es == fe + be);
    if j == cs.len() - 1 {
        assert(cs.take(j) =~= front);
        assert(es.subrange(fe.len() as int, es.len() as int) =~= be);
    } else {
        lemma_children_layout(front, index, profile, j);
        assert(front.take(j) =~= cs.take(j));
        let start = children_count(cs.take(j)) as int;
        let end = start + 1 + nested_count(cs[j].specification);
        assert(es.subrange(start, end) =~= fe.subrange(start, end));
    }
}

proof fn lemma_single(g: Generation)
    ensures
        flat_generations(seq![g]) == flat_spec(g.specification, g.index, g.profile@, None),
{
    let gs = seq![g];
    assert(gs.subrange(0, 0) =~= Seq::<Generation>::empty());
    assert(flat_generations(Seq::<Generation>::empty()) == Ok::<Seq<EntryView>, crate::model::FlattenError>(Seq::empty()));
    assert(gs[0] == g);
    if let Ok(es) = flat_spec(g.specification, g.index, g.profile@, None) {
        assert(Seq::<EntryView>::empty() + es =~= es);
    }
}

/// Flattening generations that have no specialisations gives exactly one entry per
/// generation, in input order, and none of them is tagged with a specialisation.
pub proof fn law_one_entry_per_flat_generation(gs: Seq<Generation>)
    requires
        forall|i: int| 0 <= i < gs.len() ==> is_flat(#[trigger] gs[i]),
    ensures
        flat_generations(gs) is Ok,
        flat_generations(gs)->Ok_0.len() == gs.len(),
        forall|i: int|
            0 <= i < gs.len() ==> #[trigger] flat_generations(gs)->Ok_0[i] == root_entry(gs[i])
                && flat_generations(gs)->Ok_0[i].specialisation_name is None,
{
    law_flat_generations_map_to_roots(gs);
}

/// Flattening generations that are already flat is the map from each generation to the
/// entry of its own document.
pub proof fn law_flat_generations_map_to_roots(gs: Seq<Generation>)
    requires
        forall|i: int| 0 <= i < gs.len() ==> is_flat(#[trigger] gs[i]),
    ensures
        flat_generations(gs) == Ok::<Seq<EntryView>, crate::model::FlattenError>(
            gs.map_values(|g: Generation| root_entry(g)),
        ),
    decreases gs.len(),
{
    if gs.len() > 0 {
        let front = gs.subrange(0, gs.len() - 1);
        let g = gs[gs.len() - 1];
        assert forall|i: int| 0 <= i < front.len() implies is_flat(#[trigger] front[i]) by {
            assert(front[i] == gs[i]);
        }
        law_flat_generations_map_to_roots(front);
        let v = g.specification->V1_0;
        assert(v.specialisations@ =~= Seq::<Specialisation>::empty());
        assert(flat_children(v.specialisations@, g.index, g.profile@) == Ok::<Seq<EntryView>, crate::model::FlattenError>(Seq::empty()));
        assert(seq![root_entry(g)] + Seq::<EntryView>::empty() =~= seq![root_entry(g)]);
        assert(flat_spec(g.specification, g.index, g.profile@, None) == Ok::<Seq<EntryView>, crate::model::FlattenError>(seq![root_entry(g)]));
        assert(gs.map_values(|g: Generation| root_entry(g)) =~= front.map_values(
            |g: Generation| root_entry(g),
        ) + seq![root_entry(g)]);
    } else {
        assert(gs.map_values(|g: Generation| root_entry(g)) =~= Seq::<EntryView>::empty());
    }
}

/// A generation whose tree is all version 1 gives one entry for itself and one for each
/// specialisation at every depth; its own entry comes first, then each specialisation's
/// subtree as one block, in the document's order.
pub proof fn law_entries_per_generation(g: Generation)
    requires
        all_v1(g.specification),
    ensures
        flat_generations(seq![g]) is Ok,
        ({
            let es = flat_generations(seq![g])->Ok_0;
            let cs = g.specification->V1_0.specialisations@;
            &&& es.len() == 1 + nested_count(g.specification)
            &&& es[0] == root_entry(g)
            &&& forall|j: int|
                0 <= j < cs.len() ==> {
                    let start = 1 + children_count(#[trigger] cs.take(j)) as int;
                    let end = start + 1 + nested_count(cs[j].specification);
                    &&& end <= es.len()
                    &&& es.subrange(start, end) == flat_spec(
                        cs[j].specification,
                        g.index,
                        g.profile@,
                        Some(cs[j].name@),
                    )->Ok_0
                }
        }),
{
    lemma_single(g);
    lemma_tree(g.specification, g.index, g.profile@, None);
    let v = g.specification->V1_0;
    let cs = v.specialisations@;
    let es = flat_generations(seq![g])->Ok_0;
    let ce = flat_children(cs, g.index, g.profile@)->Ok_0;
    assert(es == seq![root_entry(g)] + ce);
    assert forall|j: int| 0 <= j < cs.len() implies {
        let start = 1 + children_count(#[trigger] cs.take(j)) as int;
        let end = start + 1 + nested_count(cs[j].specification);
        &&& end <= es.len()
        &&& es.subrange(start, end) == flat_spec(
            cs[j].specification,
            g.index,
            g.profile@,
            Some(cs[j].name@),
        )->Ok_0
    } by {
        lemma_children_layout(cs, g.index, g.profile@, j);
        let start = 1 + children_count(cs.take(j)) as int;
        let end = start + 1 + nested_count(cs[j].specification);
        assert(es.subrange(start, end) =~= ce.subrange(start - 1, end - 1));
    }
}

/// Every entry of one generation's tree carries that generation's index and profile,
/// at any depth.
pub proof fn law_generation_identity_propagates(g: Generation)
    ensures
        flat_generations(seq![g]) is Ok ==> forall|k: int|
            0 <= k < flat_generations(seq![g])->Ok_0.len() ==> {
                let e = #[trigger] flat_generations(seq![g])->Ok_0[k];
                &&& e.generation_index == g.index
                &&& e.profile_name == g.profile@
            },
{
    lemma_single(g);
    lemma_tree(g.specification, g.index, g.profile@, None);
}

/// Of one generation's entries, only its own is untagged; each specialisation's entry
/// is tagged with the name of the edge that reached it, the last edge only.
pub proof fn law_specialisation_name_is_last_edge(g: Generation)
    ensures
        flat_generations(seq![g]) is Ok ==> {
            let es = flat_generations(seq![g])->Ok_0;
            let cs = g.specification->V1_0.specialisations@;
            &&& es[0].specialisation_name is None
            &&& forall|k: int| 0 < k < es.len() ==> (#[trigger] es[k]).specialisation_name is Some
            &&& forall|j: int|
                0 <= j < cs.len() ==> (#[trigger] es[1 + children_count(cs.take(j)) as int])
                    .specialisation_name == Some(cs[j].name@)
        },
{
    lemma_single(g);
    lemma_tree(g.specification, g.index, g.profile@, None);
    if flat_generations(seq![g]) is Ok {
        law_entries_per_generation(g);
        let es = flat_generations(seq![g])->Ok_0;
        let cs = g.specification->V1_0.specialisations@;
        assert forall|j: int| 0 <= j < cs.len() implies (#[trigger] es[1 + children_count(
            cs.take(j),
        ) as int]).specialisation_name == Some(cs[j].name@) by {
            let start = 1 + children_count(cs.take(j)) as int;
            let end = start + 1 + nested_count(cs[j].specification);
            lemma_children_layout(cs, g.index, g.profile@, j);
            lemma_tree(cs[j].specification, g.index, g.profile@, Some(cs[j].name@));
            assert(es.subrange(start, end)[0] == es[start]);
        }
    }
}

/// Flattening is refused exactly when some node of some generation's tree is not a
/// version 1 document.
pub proof fn law_unsupported_version_refused(gs: Seq<Generation>)
    ensures
        flat_generations(gs) is Err <==> exists|i: int|
            0 <= i < gs.len() && !all_v1(#[trigger] gs[i].specification),
    decreases gs.len(),
{
    if gs.len() > 0 {
        let front = gs.subrange(0, gs.len() - 1);
        let g = gs[gs.len() - 1];
        law_unsupported_version_refused(front);
        lemma_tree(g.specification, g.index, g.profile@, None);
        if exists|i: int| 0 <= i < front.len() && !all_v1(#[trigger] front[i].specification) {
            let i = choose|i: int| 0 <= i < front.len() && !all_v1(#[trigger] front[i].specification);
            assert(gs[i] == front[i]);
        }
        if exists|i: int| 0 <= i < gs.len() && !all_v1(#[trigger] gs[i].specification) {
            let i = choose|i: int| 0 <= i < gs.len() && !all_v1(#[trigger] gs[i].specification);
            if i < gs.len() - 1 {
                assert(gs[i] == front[i]);
            }
        }
    }
}

} // verus!
