//! What holds of every call: an access of the callee is never lost on its
//! way into the caller, and two instances of a generic resource are never
//! taken for one.

use crate::abs_addr::AddrView;
use crate::access::Access;
use crate::access_path::{instantiate_offsets, OffsetView, PathView, RootView, StructKeyView};
use crate::state::StateView;
use crate::summary::{
    actual_values, apply_summary_step, attach, attach_all, call_images, is_argument,
    lemma_applied_accesses_sound,
};
use crate::types::{
    instantiate_type, instantiate_types, mentions_parameter, types_mention_parameter, TypeView,
};
use vstd::prelude::*;

verus! {

/// Whether the type parameter `idx` occurs in a resource that the path
/// names, at its root or among its offsets.
pub open spec fn path_mentions_parameter(p: PathView, idx: u16) -> bool {
    ||| p.root is Global && types_mention_parameter(p.root->Global_0.resource.types, idx)
    ||| exists|i: int|
        0 <= i < p.offsets.len() && (#[trigger] p.offsets[i]) is Global && types_mention_parameter(
            p.offsets[i]->Global_0.types,
            idx,
        )
}

/// A type in which a parameter occurs has distinct instances at type
/// arguments that differ for that parameter.
pub proof fn lemma_type_instances_distinct(
    t: TypeView,
    a: Seq<TypeView>,
    b: Seq<TypeView>,
    idx: u16,
)
    requires
        mentions_parameter(t, idx),
        idx < a.len(),
        idx < b.len(),
        a[idx as int] != b[idx as int],
    ensures
        instantiate_type(t, a) != instantiate_type(t, b),
    decreases t,
{
    match t {
        TypeView::Primitive(_) => {},
        TypeView::Vector(elem) => {
            lemma_type_instances_distinct(*elem, a, b, idx);
        },
        TypeView::Struct(_, _, args) => {
            let i = choose|i: int|
                0 <= i < args.len() && mentions_parameter(#[trigger] args[i], idx);
            lemma_type_instances_distinct(args[i], a, b, idx);
            let sa = instantiate_type(t, a)->Struct_2;
            let sb = instantiate_type(t, b)->Struct_2;
            assert(sa[i] == instantiate_type(args[i], a));
            assert(sb[i] == instantiate_type(args[i], b));
        },
        TypeView::TypeParameter(_) => {},
    }
}

/// A resource in whose type arguments a parameter occurs has distinct
/// instances at type arguments that differ for that parameter.
pub proof fn lemma_key_instances_distinct(
    key: StructKeyView,
    a: Seq<TypeView>,
    b: Seq<TypeView>,
    idx: u16,
)
    requires
        types_mention_parameter(key.types, idx),
        idx < a.len(),
        idx < b.len(),
        a[idx as int] != b[idx as int],
    ensures
        key.instantiate(a) != key.instantiate(b),
{
    let i = choose|i: int|
        0 <= i < key.types.len() && mentions_parameter(#[trigger] key.types[i], idx);
    lemma_type_instances_distinct(key.types[i], a, b, idx);
    assert(instantiate_types(key.types, a)[i] == instantiate_type(key.types[i], a));
    assert(instantiate_types(key.types, b)[i] == instantiate_type(key.types[i], b));
}

/// From one address, offsets of one length that differ lead to paths that
/// differ; so do offsets of one length from any two addresses.
pub proof fn lemma_attach_injective(
    x: AddrView,
    y: AddrView,
    xs: Seq<OffsetView>,
    ys: Seq<OffsetView>,
)
    requires
        xs.len() == ys.len(),
        xs != ys,
        attach(x, xs) is Some,
        attach(y, ys) is Some,
    ensures
        attach(x, xs) != attach(y, ys),
{
    if attach(x, xs) == attach(y, ys) {
        let r = attach(x, xs)->Some_0;
        match (x, y) {
            (AddrView::Footprint(bx), AddrView::Footprint(by)) => {
                assert(r.offsets == bx.offsets + xs);
                assert(r.offsets == by.offsets + ys);
                assert(bx.offsets.len() == by.offsets.len());
                assert forall|k: int| 0 <= k < xs.len() implies xs[k] == ys[k] by {
                    assert((bx.offsets + xs)[bx.offsets.len() + k] == xs[k]);
                    assert((by.offsets + ys)[by.offsets.len() + k] == ys[k]);
                }
            },
            (AddrView::Constant(cx), AddrView::Constant(cy)) => {
                let ex = Seq::<OffsetView>::empty() + xs.skip(1);
                let ey = Seq::<OffsetView>::empty() + ys.skip(1);
                assert(r.offsets == ex);
                assert(r.offsets == ey);
                assert(xs[0]->Global_0 == ys[0]->Global_0);
                assert forall|k: int| 0 <= k < xs.len() implies xs[k] == ys[k] by {
                    if k > 0 {
                        assert(ex[k - 1] == xs[k]);
                        assert(ey[k - 1] == ys[k]);
                    }
                }
            },
            (AddrView::Footprint(bx), AddrView::Constant(_)) => {
                assert(r.offsets == bx.offsets + xs);
                assert(r.offsets == Seq::<OffsetView>::empty() + ys.skip(1));
            },
            (AddrView::Constant(_), AddrView::Footprint(by)) => {
                assert(r.offsets == by.offsets + ys);
                assert(r.offsets == Seq::<OffsetView>::empty() + xs.skip(1));
            },
        }
        assert(xs =~= ys);
    }
}

/// A path in which a parameter occurs has distinct instances at type
/// arguments that differ for that parameter. The two instances have the
/// same kind of root and as many offsets, and where the path starts at a
/// formal, their offsets differ.
pub proof fn lemma_path_instances_distinct(
    p: PathView,
    a: Seq<TypeView>,
    b: Seq<TypeView>,
    idx: u16,
)
    requires
        path_mentions_parameter(p, idx),
        idx < a.len(),
        idx < b.len(),
        a[idx as int] != b[idx as int],
    ensures
        p.instantiate(a) != p.instantiate(b),
        !(p.root is Global) ==> p.instantiate(a).offsets != p.instantiate(b).offsets,
{
    if p.root is Global && types_mention_parameter(p.root->Global_0.resource.types, idx) {
        lemma_key_instances_distinct(p.root->Global_0.resource, a, b, idx);
    } else {
        let i = choose|i: int|
            0 <= i < p.offsets.len() && (#[trigger] p.offsets[i]) is Global
                && types_mention_parameter(p.offsets[i]->Global_0.types, idx);
        lemma_key_instances_distinct(p.offsets[i]->Global_0, a, b, idx);
        assert(instantiate_offsets(p.offsets, a)[i] == p.offsets[i].instantiate(a));
        assert(instantiate_offsets(p.offsets, b)[i] == p.offsets[i].instantiate(b));
    }
}

/// Generic instantiation: a path of a summary that names a resource with a
/// type parameter stands, at two calls whose type arguments differ for that
/// parameter, for paths of the caller of which none is the same.
pub proof fn lemma_generic_instances_distinct(
    p: PathView,
    actuals: Seq<Set<AddrView>>,
    a: Seq<TypeView>,
    b: Seq<TypeView>,
    idx: u16,
)
    requires
        path_mentions_parameter(p, idx),
        idx < a.len(),
        idx < b.len(),
        a[idx as int] != b[idx as int],
    ensures
        call_images(p, actuals, a).disjoint(call_images(p, actuals, b)),
{
    lemma_path_instances_distinct(p, a, b, idx);
    let qa = p.instantiate(a);
    let qb = p.instantiate(b);
    assert forall|r: PathView|
        !(call_images(p, actuals, a).contains(r) && call_images(p, actuals, b).contains(r)) by {
        if call_images(p, actuals, a).contains(r) && call_images(p, actuals, b).contains(r) {
            if is_argument(qa.root, actuals.len()) {
                let values = actuals[qa.root->Formal_0 as int];
                let x = choose|x: AddrView| #[trigger]
                    values.contains(x) && attach(x, qa.offsets) == Some(r);
                let y = choose|y: AddrView| #[trigger]
                    values.contains(y) && attach(y, qb.offsets) == Some(r);
                lemma_attach_injective(x, y, qa.offsets, qb.offsets);
            }
        }
    }
}

/// Composition soundness: where the summary of the callee records a write,
/// or more, at a path below its first formal, and the first argument of the
/// call may hold the path `target`, the caller records a write, or more, at
/// `target` followed by the same offsets, their type parameters replaced by
/// the type arguments of the call.
pub proof fn lemma_composition_sound(
    caller: StateView,
    callee: StateView,
    actuals: Seq<usize>,
    type_args: Seq<TypeView>,
    rets: Seq<usize>,
    offsets: Seq<OffsetView>,
    target: PathView,
)
    requires
        callee.accesses.contains_key(PathView { root: RootView::Formal(0), offsets }),
        Access::Write.leq(callee.accesses[PathView { root: RootView::Formal(0), offsets }]),
        actuals.len() > 0,
        caller.bound(actuals[0]),
        caller.value(actuals[0]).contains(AddrView::Footprint(target)),
        apply_summary_step(caller, callee, actuals, type_args, rets) is Ok,
    ensures
        ({
            let after = apply_summary_step(caller, callee, actuals, type_args, rets)->Ok_0;
            let reached = target.extend(instantiate_offsets(offsets, type_args));
            after.accesses.contains_key(reached) && Access::Write.leq(after.accesses[reached])
        }),
{
    let p = PathView { root: RootView::Formal(0), offsets };
    let values = actual_values(caller.locals, actuals);
    let reached = target.extend(instantiate_offsets(offsets, type_args));
    assert(values[0].contains(AddrView::Footprint(target)));
    assert(attach(AddrView::Footprint(target), p.instantiate(type_args).offsets) == Some(reached));
    assert(attach_all(values[0], p.instantiate(type_args).offsets).contains(reached));
    assert(call_images(p, values, type_args).contains(reached));
    lemma_applied_accesses_sound(caller.accesses, callee.accesses, values, type_args);
}

} // verus!
