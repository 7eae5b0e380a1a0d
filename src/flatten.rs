//! Depth-first, preorder flattening of boot specification trees.
use vstd::prelude::*;

use crate::model::{
    entries_view, node_entry, notifications_view, opt_str_view, BootSpecification,
    BootableToplevel, EntryView, FlattenError, Generation, Notification, NotificationView,
    Specialisation, SpecificationV1,
};

verus! {

broadcast use vstd::std_specs::vec::group_vec_axioms;

/// The entries of the tree rooted at `s`, reached by the edge `name`, in preorder;
/// or the version of the first node in preorder that is not version 1.
pub open spec fn flat_spec(
    s: BootSpecification,
    index: u64,
    profile: Seq<char>,
    name: Option<Seq<char>>,
) -> Result<Seq<EntryView>, FlattenError>
    decreases s,
{
    match s {
        BootSpecification::Unsupported { version } => Err(FlattenError::UnsupportedVersion(version)),
        BootSpecification::V1(v) => {
            match flat_children(v.specialisations@, index, profile) {
                Ok(es) => Ok(seq![node_entry(v, index, profile, name)] + es),
                Err(e) => Err(e),
            }
        },
    }
}

/// The entries of the subtrees `cs`, one after the other.
pub open spec fn flat_children(
    cs: Seq<Specialisation>,
    index: u64,
    profile: Seq<char>,
) -> Result<Seq<EntryView>, FlattenError>
    decreases cs,
{
    if cs.len() == 0 {
        Ok(Seq::empty())
    } else {
        let last = cs[cs.len() - 1];
        match flat_children(cs.subrange(0, cs.len() - 1), index, profile) {
            Err(e) => Err(e),
            Ok(front) => match flat_spec(last.specification, index, profile, Some(last.name@)) {
                Err(e) => Err(e),
                Ok(back) => Ok(front + back),
            },
        }
    }
}

/// The notices of the tree rooted at `s`: one for each specialisation edge, in preorder.
pub open spec fn spec_notices(s: BootSpecification) -> Seq<NotificationView>
    decreases s,
{
    match s {
        BootSpecification::Unsupported { .. } => Seq::empty(),
        BootSpecification::V1(v) => children_notices(v.specialisations@, v.toplevel@),
    }
}

/// The notices of the edges `cs` under the node whose closure is `parent`, and of their subtrees.
pub open spec fn children_notices(cs: Seq<Specialisation>, parent: Seq<char>) -> Seq<
    NotificationView,
>
    decreases cs,
{
    if cs.len() == 0 {
        Seq::empty()
    } else {
        let last = cs[cs.len() - 1];
        let front = children_notices(cs.subrange(0, cs.len() - 1), parent);
        match last.specification {
            BootSpecification::V1(c) => front + seq![
                NotificationView { name: last.name@, parent_toplevel: parent, toplevel: c.toplevel@ },
            ] + spec_notices(last.specification),
            BootSpecification::Unsupported { .. } => front,
        }
    }
}

/// The entries of the generations `gs`, each tree in turn, top-level order kept.
pub open spec fn flat_generations(gs: Seq<Generation>) -> Result<Seq<EntryView>, FlattenError>
    decreases gs.len(),
{
    if gs.len() == 0 {
        Ok(Seq::empty())
    } else {
        let last = gs[gs.len() - 1];
        match flat_generations(gs.subrange(0, gs.len() - 1)) {
            Err(e) => Err(e),
            Ok(front) => match flat_spec(last.specification, last.index, last.profile@, None) {
                Err(e) => Err(e),
                Ok(back) => Ok(front + back),
            },
        }
    }
}

/// The notices of the generations `gs`, each tree in turn.
pub open spec fn generations_notices(gs: Seq<Generation>) -> Seq<NotificationView>
    decreases gs.len(),
{
    if gs.len() == 0 {
        Seq::empty()
    } else {
        generations_notices(gs.subrange(0, gs.len() - 1)) + spec_notices(gs[gs.len() - 1].specification)
    }
}

/// Once a prefix of the edges fails, all of them fail the same way.
proof fn lemma_children_err_prefix(cs: Seq<Specialisation>, k: int, index: u64, profile: Seq<char>)
    requires
        0 <= k <= cs.len(),
        flat_children(cs.take(k), index, profile) is Err,
    ensures
        flat_children(cs, index, profile) == flat_children(cs.take(k), index, profile),
    decreases cs.len() - k,
{
    if k < cs.len() {
        assert(cs.take(k + 1).subrange(0, k) =~= cs.take(k));
        lemma_children_err_prefix(cs, k + 1, index, profile);
    } else {
        assert(cs.take(k) =~= cs);
    }
}

/// Once a prefix of the generations fails, all of them fail the same way.
proof fn lemma_generations_err_prefix(gs: Seq<Generation>, k: int)
    requires
        0 <= k <= gs.len(),
        flat_generations(gs.take(k)) is Err,
    ensures
        flat_generations(gs) == flat_generations(gs.take(k)),
    decreases gs.len() - k,
{
    if k < gs.len() {
        assert(gs.take(k + 1).subrange(0, k) =~= gs.take(k));
        lemma_generations_err_prefix(gs, k + 1);
    } else {
        assert(gs.take(k) =~= gs);
    }
}

fn clone_strings(v: &Vec<String>) -> (r: Vec<String>)
    ensures
        r@ == v@,
{
    let mut r: Vec<String> = Vec::new();
    let mut i: usize = 0;
    while i < v.len()
        invariant
            i <= v.len(),
            r@ == v@.take(i as int),
        decreases v.len() - i,
    {
        r.push(v[i].clone());
        i += 1;
        assert(r@ =~= v@.take(i as int));
    }
    assert(v@.take(v.len() as int) =~= v@);
    r
}

fn clone_opt_string(o: &Option<String>) -> (r: Option<String>)
    ensures
        r == *o,
{
    match o {
        Some(s) => Some(s.clone()),
        None => None,
    }
}

/// The entry of the version 1 node `v`.
fn node_toplevel(v: &SpecificationV1, index: u64, profile: &String, name: Option<String>) -> (r:
    BootableToplevel)
    ensures
        r@ == node_entry(*v, index, profile@, opt_str_view(name)),
{
    BootableToplevel {
        label: v.label.clone(),
        kernel: v.kernel.clone(),
        kernel_params: clone_strings(&v.kernel_params),
        init: v.init.clone(),
        initrd: clone_opt_string(&v.initrd),
        toplevel: v.toplevel.clone(),
        specialisation_name: name,
        generation_index: index,
        profile_name: profile.clone(),
    }
}

/// Appends the entries and notices of the tree rooted at `s`, or stops at its first
/// node that is not version 1.
fn flatten_node(
    s: &BootSpecification,
    index: u64,
    profile: &String,
    name: Option<String>,
    entries: &mut Vec<BootableToplevel>,
    notices: &mut Vec<Notification>,
) -> (r: Result<(), FlattenError>)
    ensures
        match flat_spec(*s, index, profile@, opt_str_view(name)) {
            Ok(es) => {
                &&& r is Ok
                &&& entries_view(final(entries)@) == entries_view(old(entries)@) + es
                &&& notifications_view(final(notices)@) == notifications_view(old(notices)@)
                    + spec_notices(*s)
            },
            Err(e) => r == Err::<(), FlattenError>(e),
        },
    decreases s,
{
    let v = match s {
        BootSpecification::V1(v) => v,
        BootSpecification::Unsupported { version } => {
            return Err(FlattenError::UnsupportedVersion(*version));
        },
    };
    let ghost cs = v.specialisations@;
    let ghost e0 = node_entry(*v, index, profile@, opt_str_view(name));
    let entry = node_toplevel(v, index, profile, name);
    entries.push(entry);
    proof {
        assert(entries_view(entries@) =~= entries_view(old(entries)@) + seq![e0]);
        assert(cs.take(0) =~= Seq::<Specialisation>::empty());
        assert(notifications_view(notices@) =~= notifications_view(old(notices)@) + children_notices(cs.take(0), v.toplevel@));
    }
    let mut i: usize = 0;
    while i < v.specialisations.len()
        invariant
            *s == BootSpecification::V1(*v),
            cs == v.specialisations@,
            e0 == node_entry(*v, index, profile@, opt_str_view(name)),
            i <= cs.len(),
            flat_children(cs.take(i as int), index, profile@) is Ok,
            entries_view(entries@) == entries_view(old(entries)@) + seq![e0]
                + flat_children(cs.take(i as int), index, profile@)->Ok_0,
            notifications_view(notices@) == notifications_view(old(notices)@)
                + children_notices(cs.take(i as int), v.toplevel@),
        decreases cs.len() - i,
    {
        let c = &v.specialisations[i];
        let ghost before_notices = notifications_view(notices@);
        proof {
            assert(cs.take(i + 1).subrange(0, i as int) =~= cs.take(i as int));
            assert(cs.take(i + 1)[i as int] == cs[i as int]);
        }
        match &c.specification {
            BootSpecification::V1(cv) => {
                notices.push(
                    Notification {
                        name: c.name.clone(),
                        parent_toplevel: v.toplevel.clone(),
                        toplevel: cv.toplevel.clone(),
                    },
                );
            },
            BootSpecification::Unsupported { version } => {
                proof {
                    let t = cs.take(i + 1);
                    assert(t.len() == i + 1);
                    assert(t[t.len() - 1].specification == c.specification);
                    assert(flat_spec(c.specification, index, profile@, Some(c.name@)) is Err);
                    assert(flat_children(t, index, profile@) == Err::<Seq<EntryView>, FlattenError>(
                        FlattenError::UnsupportedVersion(*version),
                    ));
                    lemma_children_err_prefix(cs, i + 1, index, profile@);
                }
                return Err(FlattenError::UnsupportedVersion(*version));
            },
        }
        proof {
            assert(notifications_view(notices@) =~= before_notices + seq![
                NotificationView { name: c.name@, parent_toplevel: v.toplevel@, toplevel: c.specification->V1_0.toplevel@ },
            ]);
            assert(decreases_to!(*s => c.specification));
        }
        let sub = flatten_node(&c.specification, index, profile, Some(c.name.clone()), entries, notices);
        if sub.is_err() {
            proof {
                lemma_children_err_prefix(cs, i + 1, index, profile@);
            }
            return sub;
        }
        i += 1;
        proof {
            assert(entries_view(entries@) =~= entries_view(old(entries)@) + seq![e0]
                + flat_children(cs.take(i as int), index, profile@)->Ok_0);
        }
    }
    proof {
        assert(cs.take(cs.len() as int) =~= cs);
        assert(entries_view(entries@) =~= entries_view(old(entries)@) + (seq![e0]
            + flat_children(cs, index, profile@)->Ok_0));
    }
    Ok(())
}

/// Appends the entries and notices of each generation's tree in turn, or stops at the
/// first node that is not version 1.
fn flatten_impl(
    inputs: &Vec<Generation>,
    entries: &mut Vec<BootableToplevel>,
    notices: &mut Vec<Notification>,
) -> (r: Result<(), FlattenError>)
    ensures
        match flat_generations(inputs@) {
            Ok(es) => {
                &&& r is Ok
                &&& entries_view(final(entries)@) == entries_view(old(entries)@) + es
                &&& notifications_view(final(notices)@) == notifications_view(old(notices)@)
                    + generations_notices(inputs@)
            },
            Err(e) => r == Err::<(), FlattenError>(e),
        },
{
    let ghost gs = inputs@;
    proof {
        assert(gs.take(0) =~= Seq::<Generation>::empty());
        assert(entries_view(entries@) =~= entries_view(old(entries)@) + Seq::empty());
        assert(notifications_view(notices@) =~= notifications_view(old(notices)@) + Seq::empty());
    }
    let mut i: usize = 0;
    while i < inputs.len()
        invariant
            gs == inputs@,
            i <= gs.len(),
            flat_generations(gs.take(i as int)) is Ok,
            entries_view(entries@) == entries_view(old(entries)@) + flat_generations(
                gs.take(i as int),
            )->Ok_0,
            notifications_view(notices@) == notifications_view(old(notices)@)
                + generations_notices(gs.take(i as int)),
        decreases gs.len() - i,
    {
        let g = &inputs[i];
        proof {
            assert(gs.take(i + 1).subrange(0, i as int) =~= gs.take(i as int));
        }
        let sub = flatten_node(&g.specification, g.index, &g.profile, None, entries, notices);
        if sub.is_err() {
            proof {
                lemma_generations_err_prefix(gs, i + 1);
            }
            return sub;
        }
        i += 1;
        proof {
            assert(entries_view(entries@) =~= entries_view(old(entries)@) + flat_generations(
                gs.take(i as int),
            )->Ok_0);
            assert(notifications_view(notices@) =~= notifications_view(old(notices)@)
                + generations_notices(gs.take(i as int)));
        }
    }
    proof {
        assert(gs.take(gs.len() as int) =~= gs);
    }
    Ok(())
}

/// Flattens each generation's tree, in input order, into one entry per node in
/// depth-first preorder; refused as a whole when any node is not version 1.
pub fn flatten(inputs: Vec<Generation>) -> (r: Result<Vec<BootableToplevel>, FlattenError>)
    ensures
        match flat_generations(inputs@) {
            Ok(es) => r is Ok && entries_view(r->Ok_0@) == es,
            Err(e) => r == Err::<Vec<BootableToplevel>, FlattenError>(e),
        },
{
    let mut entries: Vec<BootableToplevel> = Vec::new();
    let mut notices: Vec<Notification> = Vec::new();
    let r = flatten_impl(&inputs, &mut entries, &mut notices);
    match r {
        Ok(()) => {
            assert(entries_view(entries@) =~= entries_view(Seq::empty()) + flat_generations(inputs@)->Ok_0);
            Ok(entries)
        },
        Err(e) => Err(e),
    }
}

/// As [`flatten`], and also the notice of each specialisation edge taken, in the order taken.
pub fn flatten_with_notifications(inputs: &Vec<Generation>) -> (r: Result<
    (Vec<BootableToplevel>, Vec<Notification>),
    FlattenError,
>)
    ensures
        match flat_generations(inputs@) {
            Ok(es) => {
                &&& r is Ok
                &&& entries_view(r->Ok_0.0@) == es
                &&& notifications_view(r->Ok_0.1@) == generations_notices(inputs@)
            },
            Err(e) => r is Err && r->Err_0 == e,
        },
{
    let mut entries: Vec<BootableToplevel> = Vec::new();
    let mut notices: Vec<Notification> = Vec::new();
    let r = flatten_impl(inputs, &mut entries, &mut notices);
    match r {
        Ok(()) => {
            assert(entries_view(entries@) =~= entries_view(Seq::empty()) + flat_generations(inputs@)->Ok_0);
            assert(notifications_view(notices@) =~= notifications_view(Seq::empty()) + generations_notices(inputs@));
            Ok((entries, notices))
        },
        Err(e) => Err(e),
    }
}

} // verus!
