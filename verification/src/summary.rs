//! Applying the summary of a callee to the state of its caller, and turning
//! the final state of a procedure into its summary.
//!
//! A summary speaks of the formals of the callee. At a call site each path
//! that starts at a formal is re-rooted at every address that the matching
//! argument may hold, and the type parameters of the callee are replaced by
//! the type arguments of the call.

use crate::abs_addr::{
    addr_set, lemma_addr_set_take, AbsAddr, Addr, AddrView,
};
use crate::access::Access;
use crate::access_path::{
    lemma_path_set_push, offsets_view, path_set, AccessPath, Offset, OffsetView, PathView, Root,
    RootView,
};
use crate::domain::AbstractDomain;
use crate::error::{AnalysisError, ErrorView};
use crate::path_map::{assoc_map, index_of_key, lemma_assoc_take, AccessPathMap};
use crate::state::{
    accesses_grow, bind_root, is_bound, join_access_paths, join_paths, local_value, AccessMap,
    AddrMap, ReadWriteSetState, StateView,
};
use crate::types::{types_view, Type, TypeView};
use vstd::prelude::*;

verus! {

/// The values of a list of abstract addresses.
pub open spec fn addr_sets(v: Seq<AbsAddr>) -> Seq<Set<AddrView>> {
    Seq::new(v.len(), |i: int| v[i]@)
}

/// What the slots `actuals` hold in `locals`: for each slot the addresses
/// bound to it, or the empty set where it is not bound.
pub open spec fn actual_values(locals: AddrMap, actuals: Seq<usize>) -> Seq<Set<AddrView>> {
    Seq::new(
        actuals.len(),
        |i: int|
            if is_bound(locals, actuals[i]) {
                local_value(locals, actuals[i])
            } else {
                Set::empty()
            },
    )
}

/// Whether `root` is a formal for which a call with `n` arguments has an
/// argument.
pub open spec fn is_argument(root: RootView, n: nat) -> bool {
    root is Formal && root->Formal_0 < n
}

/// The path that `offsets` lead to from the address `a`. A path is extended;
/// a statically known address becomes the root of a resource when the first
/// offset names one, and leads nowhere otherwise.
pub open spec fn attach(a: AddrView, offsets: Seq<OffsetView>) -> Option<PathView> {
    match a {
        AddrView::Footprint(base) => Some(base.extend(offsets)),
        AddrView::Constant(c) => if offsets.len() > 0 && offsets[0] is Global {
            Some(PathView::resource(c, offsets[0]->Global_0).extend(offsets.skip(1)))
        } else {
            None
        },
    }
}

/// The paths that `offsets` lead to from the addresses `s`.
pub open spec fn attach_all(s: Set<AddrView>, offsets: Seq<OffsetView>) -> Set<PathView> {
    Set::new(
        |r: PathView|
            exists|a: AddrView| #[trigger] s.contains(a) && attach(a, offsets) == Some(r),
    )
}

/// The address that `offsets` lead to from the address `a`: `a` itself where
/// there are no offsets, else the path that they lead to.
pub open spec fn follow(a: AddrView, offsets: Seq<OffsetView>) -> Option<AddrView> {
    if offsets.len() == 0 {
        Some(a)
    } else {
        match attach(a, offsets) {
            Some(r) => Some(AddrView::Footprint(r)),
            None => None,
        }
    }
}

/// The addresses that `offsets` lead to from the addresses `s`.
pub open spec fn follow_all(s: Set<AddrView>, offsets: Seq<OffsetView>) -> Set<AddrView> {
    Set::new(
        |b: AddrView|
            exists|a: AddrView| #[trigger] s.contains(a) && follow(a, offsets) == Some(b),
    )
}

/// The paths of the caller that the path `p` of a summary stands for at a
/// call with the arguments `actuals` and the type arguments `type_args`.
pub open spec fn call_images(
    p: PathView,
    actuals: Seq<Set<AddrView>>,
    type_args: Seq<TypeView>,
) -> Set<PathView> {
    let q = p.instantiate(type_args);
    if is_argument(q.root, actuals.len()) {
        attach_all(actuals[q.root->Formal_0 as int], q.offsets)
    } else {
        set![q]
    }
}

/// The addresses of the caller that the address `a` of a summary stands for
/// at a call with the arguments `actuals` and the type arguments `type_args`.
pub open spec fn substitute_addr(
    a: AddrView,
    actuals: Seq<Set<AddrView>>,
    type_args: Seq<TypeView>,
) -> Set<AddrView> {
    match a {
        AddrView::Constant(_) => set![a],
        AddrView::Footprint(p) => {
            let q = p.instantiate(type_args);
            if is_argument(q.root, actuals.len()) {
                follow_all(actuals[q.root->Formal_0 as int], q.offsets)
            } else {
                set![AddrView::Footprint(q)]
            }
        },
    }
}

/// The addresses of the caller that the addresses `v` of a summary stand for.
pub open spec fn substitute_value(
    v: Set<AddrView>,
    actuals: Seq<Set<AddrView>>,
    type_args: Seq<TypeView>,
) -> Set<AddrView> {
    Set::new(
        |b: AddrView|
            exists|a: AddrView| #[trigger]
                v.contains(a) && substitute_addr(a, actuals, type_args).contains(b),
    )
}

/// Whether the set holds a statically known address.
pub open spec fn has_constant(s: Set<AddrView>) -> bool {
    exists|c: u128| s.contains(AddrView::Constant(c))
}

/// Whether the path `p` of a summary cannot be re-rooted at the arguments
/// `actuals`: its formal may be a statically known address, and its first
/// offset is not a resource.
pub open spec fn bad_offset(p: PathView, actuals: Seq<Set<AddrView>>) -> bool {
    &&& is_argument(p.root, actuals.len())
    &&& p.offsets.len() > 0
    &&& !(p.offsets[0] is Global)
    &&& has_constant(actuals[p.root->Formal_0 as int])
}

/// Whether every path of the accesses `callee` can be re-rooted at the
/// arguments `actuals`.
pub open spec fn summary_applies(callee: AccessMap, actuals: Seq<Set<AddrView>>) -> bool {
    forall|p: PathView| #[trigger] callee.contains_key(p) ==> !bad_offset(p, actuals)
}

/// Whether the summary `callee` brings an access of kind `kind` to the path
/// `q` of the caller.
pub open spec fn reaches(
    callee: AccessMap,
    actuals: Seq<Set<AddrView>>,
    type_args: Seq<TypeView>,
    q: PathView,
    kind: Access,
) -> bool {
    exists|p: PathView| #[trigger]
        callee.contains_key(p) && callee[p] == kind && call_images(p, actuals, type_args).contains(
            q,
        )
}

/// Whether an access of kind `kind` to the path `q` is recorded by the
/// caller or brought there by the summary `callee`.
pub open spec fn recorded(
    caller: AccessMap,
    callee: AccessMap,
    actuals: Seq<Set<AddrView>>,
    type_args: Seq<TypeView>,
    q: PathView,
    kind: Access,
) -> bool {
    (caller.contains_key(q) && caller[q] == kind) || reaches(callee, actuals, type_args, q, kind)
}

/// The join of the accesses whose presence the four flags tell.
pub open spec fn strongest(borrow: bool, read: bool, write: bool, all: bool) -> Access {
    if all || (read && write) {
        Access::ReadWriteBorrow
    } else if read {
        Access::Read
    } else if write {
        Access::Write
    } else {
        Access::Borrow
    }
}

/// The accesses of the caller after the call: each path holds the join of
/// what the caller had recorded there and of every access that the summary
/// brings there.
pub open spec fn applied_accesses(
    caller: AccessMap,
    callee: AccessMap,
    actuals: Seq<Set<AddrView>>,
    type_args: Seq<TypeView>,
) -> AccessMap {
    Map::new(
        |q: PathView|
            recorded(caller, callee, actuals, type_args, q, Access::Borrow) || recorded(
                caller,
                callee,
                actuals,
                type_args,
                q,
                Access::Read,
            ) || recorded(caller, callee, actuals, type_args, q, Access::Write) || recorded(
                caller,
                callee,
                actuals,
                type_args,
                q,
                Access::ReadWriteBorrow,
            ),
        |q: PathView|
            strongest(
                recorded(caller, callee, actuals, type_args, q, Access::Borrow),
                recorded(caller, callee, actuals, type_args, q, Access::Read),
                recorded(caller, callee, actuals, type_args, q, Access::Write),
                recorded(caller, callee, actuals, type_args, q, Access::ReadWriteBorrow),
            ),
    )
}

/// The bindings of the caller after the call: in the order of the return
/// values, each destination slot is bound to what the summary returns there,
/// expressed in the addresses of the caller. A return value that the summary
/// does not bind leaves its slot as it is.
pub open spec fn bind_returns(
    locals: AddrMap,
    callee_locals: AddrMap,
    rets: Seq<usize>,
    actuals: Seq<Set<AddrView>>,
    type_args: Seq<TypeView>,
) -> AddrMap
    decreases rets.len(),
{
    if rets.len() == 0 {
        locals
    } else {
        let j = (rets.len() - 1) as usize;
        let before = bind_returns(locals, callee_locals, rets.drop_last(), actuals, type_args);
        if callee_locals.contains_key(PathView::ret(j)) {
            bind_root(
                before,
                RootView::Local(rets.last()),
                substitute_value(callee_locals[PathView::ret(j)], actuals, type_args),
            )
        } else {
            before
        }
    }
}

/// The state of the caller after a call, or the failure of the call: the
/// summary cannot be applied where an argument may be a statically known
/// address and the summary follows its formal by an offset that is not a
/// resource.
pub open spec fn apply_summary_step(
    s: StateView,
    callee: StateView,
    actuals: Seq<usize>,
    type_args: Seq<TypeView>,
    rets: Seq<usize>,
) -> Result<StateView, ErrorView> {
    let values = actual_values(s.locals, actuals);
    if summary_applies(callee.accesses, values) {
        Ok(
            StateView {
                accesses: applied_accesses(s.accesses, callee.accesses, values, type_args),
                locals: bind_returns(s.locals, callee.locals, rets, values, type_args),
            },
        )
    } else {
        Err(ErrorView::BadOffsetForAddress)
    }
}

/// The paths reached from a set of addresses, when one more address joins
/// the set.
pub proof fn lemma_attach_all_insert(s: Set<AddrView>, a: AddrView, offsets: Seq<OffsetView>)
    ensures
        attach_all(s.insert(a), offsets) == match attach(a, offsets) {
            Some(r) => attach_all(s, offsets).insert(r),
            None => attach_all(s, offsets),
        },
        attach_all(Set::<AddrView>::empty(), offsets) == Set::<PathView>::empty(),
{
    let more = s.insert(a);
    let target = match attach(a, offsets) {
        Some(r) => attach_all(s, offsets).insert(r),
        None => attach_all(s, offsets),
    };
    assert forall|r: PathView| attach_all(more, offsets).contains(r) implies target.contains(r) by {
        let b = choose|b: AddrView| #[trigger] more.contains(b) && attach(b, offsets) == Some(r);
        if b != a {
            assert(s.contains(b));
        }
    }
    assert forall|r: PathView| target.contains(r) implies attach_all(more, offsets).contains(r) by {
        if attach_all(s, offsets).contains(r) {
            let b = choose|b: AddrView| #[trigger] s.contains(b) && attach(b, offsets) == Some(r);
            assert(more.contains(b));
        } else {
            assert(more.contains(a));
        }
    }
    assert(attach_all(more, offsets) =~= target);
    assert(attach_all(Set::<AddrView>::empty(), offsets) =~= Set::<PathView>::empty());
}

/// The addresses reached from a set of addresses, when one more address
/// joins the set.
pub proof fn lemma_follow_all_insert(s: Set<AddrView>, a: AddrView, offsets: Seq<OffsetView>)
    ensures
        follow_all(s.insert(a), offsets) == match follow(a, offsets) {
            Some(b) => follow_all(s, offsets).insert(b),
            None => follow_all(s, offsets),
        },
        follow_all(Set::<AddrView>::empty(), offsets) == Set::<AddrView>::empty(),
{
    let more = s.insert(a);
    let target = match follow(a, offsets) {
        Some(b) => follow_all(s, offsets).insert(b),
        None => follow_all(s, offsets),
    };
    assert forall|r: AddrView| follow_all(more, offsets).contains(r) implies target.contains(r) by {
        let b = choose|b: AddrView| #[trigger] more.contains(b) && follow(b, offsets) == Some(r);
        if b != a {
            assert(s.contains(b));
        }
    }
    assert forall|r: AddrView| target.contains(r) implies follow_all(more, offsets).contains(r) by {
        if follow_all(s, offsets).contains(r) {
            let b = choose|b: AddrView| #[trigger] s.contains(b) && follow(b, offsets) == Some(r);
            assert(more.contains(b));
        } else {
            assert(more.contains(a));
        }
    }
    assert(follow_all(more, offsets) =~= target);
    assert(follow_all(Set::<AddrView>::empty(), offsets) =~= Set::<AddrView>::empty());
}

/// The substituted addresses of a set of addresses, when one more address
/// joins the set.
pub proof fn lemma_substitute_value_insert(
    v: Set<AddrView>,
    a: AddrView,
    actuals: Seq<Set<AddrView>>,
    type_args: Seq<TypeView>,
)
    ensures
        substitute_value(v.insert(a), actuals, type_args) == substitute_value(
            v,
            actuals,
            type_args,
        ).union(substitute_addr(a, actuals, type_args)),
        substitute_value(Set::<AddrView>::empty(), actuals, type_args) == Set::<AddrView>::empty(),
{
    let more = v.insert(a);
    let target = substitute_value(v, actuals, type_args).union(
        substitute_addr(a, actuals, type_args),
    );
    assert forall|b: AddrView| substitute_value(more, actuals, type_args).contains(
        b,
    ) implies target.contains(b) by {
        let x = choose|x: AddrView| #[trigger]
            more.contains(x) && substitute_addr(x, actuals, type_args).contains(b);
        if x != a {
            assert(v.contains(x));
        }
    }
    assert forall|b: AddrView| target.contains(b) implies substitute_value(
        more,
        actuals,
        type_args,
    ).contains(b) by {
        if substitute_value(v, actuals, type_args).contains(b) {
            let x = choose|x: AddrView| #[trigger]
                v.contains(x) && substitute_addr(x, actuals, type_args).contains(b);
            assert(more.contains(x));
        } else {
            assert(more.contains(a));
        }
    }
    assert(substitute_value(more, actuals, type_args) =~= target);
    assert(substitute_value(Set::<AddrView>::empty(), actuals, type_args) =~= Set::<
        AddrView,
    >::empty());
}

/// What a summary brings to a path, when one more access joins the summary.
pub proof fn lemma_reaches_insert(
    callee: AccessMap,
    p: PathView,
    k: Access,
    actuals: Seq<Set<AddrView>>,
    type_args: Seq<TypeView>,
    q: PathView,
    kind: Access,
)
    requires
        !callee.contains_key(p),
    ensures
        reaches(callee.insert(p, k), actuals, type_args, q, kind) == (reaches(
            callee,
            actuals,
            type_args,
            q,
            kind,
        ) || (kind == k && call_images(p, actuals, type_args).contains(q))),
{
    let more = callee.insert(p, k);
    if reaches(more, actuals, type_args, q, kind) {
        let x = choose|x: PathView| #[trigger]
            more.contains_key(x) && more[x] == kind && call_images(x, actuals, type_args).contains(
                q,
            );
        if x != p {
            assert(callee.contains_key(x));
        }
    }
    if reaches(callee, actuals, type_args, q, kind) {
        let x = choose|x: PathView| #[trigger]
            callee.contains_key(x) && callee[x] == kind && call_images(
                x,
                actuals,
                type_args,
            ).contains(q);
        assert(more.contains_key(x));
    }
    if kind == k && call_images(p, actuals, type_args).contains(q) {
        assert(more.contains_key(p));
    }
}

/// Applying a summary with one more access is applying the summary and then
/// joining that access into the paths that it stands for.
pub proof fn lemma_applied_step(
    caller: AccessMap,
    callee: AccessMap,
    p: PathView,
    k: Access,
    actuals: Seq<Set<AddrView>>,
    type_args: Seq<TypeView>,
)
    requires
        !callee.contains_key(p),
    ensures
        applied_accesses(caller, callee.insert(p, k), actuals, type_args) == join_paths(
            applied_accesses(caller, callee, actuals, type_args),
            call_images(p, actuals, type_args),
            k,
        ),
{
    let more = callee.insert(p, k);
    let lhs = applied_accesses(caller, more, actuals, type_args);
    let rhs = join_paths(
        applied_accesses(caller, callee, actuals, type_args),
        call_images(p, actuals, type_args),
        k,
    );
    assert forall|q: PathView| #[trigger] lhs.dom().contains(q) <==> rhs.dom().contains(q) by {
        lemma_reaches_insert(callee, p, k, actuals, type_args, q, Access::Borrow);
        lemma_reaches_insert(callee, p, k, actuals, type_args, q, Access::Read);
        lemma_reaches_insert(callee, p, k, actuals, type_args, q, Access::Write);
        lemma_reaches_insert(callee, p, k, actuals, type_args, q, Access::ReadWriteBorrow);
    }
    assert(lhs.dom() =~= rhs.dom());
    assert forall|q: PathView| #[trigger] lhs.dom().contains(q) implies lhs[q] == rhs[q] by {
        lemma_reaches_insert(callee, p, k, actuals, type_args, q, Access::Borrow);
        lemma_reaches_insert(callee, p, k, actuals, type_args, q, Access::Read);
        lemma_reaches_insert(callee, p, k, actuals, type_args, q, Access::Write);
        lemma_reaches_insert(callee, p, k, actuals, type_args, q, Access::ReadWriteBorrow);
    }
    assert(lhs =~= rhs);
}

/// A summary without accesses leaves the accesses of the caller as they are.
pub proof fn lemma_applied_empty(
    caller: AccessMap,
    actuals: Seq<Set<AddrView>>,
    type_args: Seq<TypeView>,
)
    ensures
        applied_accesses(caller, Map::<PathView, Access>::empty(), actuals, type_args) == caller,
{
    assert(applied_accesses(caller, Map::<PathView, Access>::empty(), actuals, type_args)
        =~= caller);
}

/// After a call the caller still records what it had recorded, and records
/// each access of the summary, as it is or stronger, at every path that the
/// access stands for.
pub proof fn lemma_applied_accesses_sound(
    caller: AccessMap,
    callee: AccessMap,
    actuals: Seq<Set<AddrView>>,
    type_args: Seq<TypeView>,
)
    ensures
        accesses_grow(caller, applied_accesses(caller, callee, actuals, type_args)),
        forall|p: PathView, q: PathView|
            callee.contains_key(p) && #[trigger] call_images(p, actuals, type_args).contains(q)
                ==> applied_accesses(caller, callee, actuals, type_args).contains_key(q)
                && callee[p].leq(applied_accesses(caller, callee, actuals, type_args)[q]),
{
    let after = applied_accesses(caller, callee, actuals, type_args);
    assert forall|p: PathView, q: PathView|
        callee.contains_key(p) && #[trigger] call_images(p, actuals, type_args).contains(
            q,
        ) implies after.contains_key(q) && callee[p].leq(after[q]) by {
        assert(reaches(callee, actuals, type_args, q, callee[p]));
    }
}

/// The path that `offsets` lead to from the address `addr`.
pub fn attach_path(addr: &Addr, offsets: &Vec<Offset>) -> (r: Option<AccessPath>)
    ensures
        match r {
            Some(p) => attach(addr@, offsets_view(offsets@)) == Some(p@),
            None => attach(addr@, offsets_view(offsets@)) is None,
        },
{
    match addr {
        Addr::Footprint(base) => {
            let r = base.extended(offsets, 0);
            assert(offsets_view(offsets@).skip(0) =~= offsets_view(offsets@));
            Some(r)
        },
        Addr::Constant(c) => {
            if offsets.len() == 0 {
                return None;
            }
            match &offsets[0] {
                Offset::Global(key) => {
                    let root = AccessPath::new_global_constant(*c, key.clone());
                    Some(root.extended(offsets, 1))
                },
                _ => None,
            }
        },
    }
}

/// The address that `offsets` lead to from the address `addr`.
pub fn follow_addr(addr: &Addr, offsets: &Vec<Offset>) -> (r: Option<Addr>)
    ensures
        match r {
            Some(b) => follow(addr@, offsets_view(offsets@)) == Some(b@),
            None => follow(addr@, offsets_view(offsets@)) is None,
        },
{
    if offsets.len() == 0 {
        Some(addr.clone())
    } else {
        match attach_path(addr, offsets) {
            Some(p) => Some(Addr::Footprint(p)),
            None => None,
        }
    }
}

/// The index of the argument that the path starts at, if it starts at a
/// formal for which `count` arguments hold one.
fn argument_index(path: &AccessPath, count: usize) -> (r: Option<usize>)
    ensures
        match r {
            Some(i) => is_argument(path@.root, count as nat) && path@.root->Formal_0 == i,
            None => !is_argument(path@.root, count as nat),
        },
{
    match &path.root {
        Root::Formal(i) => if *i < count {
            Some(*i)
        } else {
            None
        },
        _ => None,
    }
}

/// The paths of the caller that the path `path` of a summary stands for.
pub fn call_targets(path: &AccessPath, actual_values: &Vec<AbsAddr>, type_actuals: &[Type]) -> (r:
    Vec<AccessPath>)
    ensures
        path_set(r@) == call_images(path@, addr_sets(actual_values@), types_view(type_actuals@)),
{
    let q = path.instantiate(type_actuals);
    let mut out: Vec<AccessPath> = Vec::new();
    match argument_index(&q, actual_values.len()) {
        Some(idx) => {
            let actual = &actual_values[idx];
            let mut i: usize = 0;
            proof {
                lemma_addr_set_take(actual.addrs@, 0);
                lemma_attach_all_insert(Set::empty(), AddrView::Constant(0), q@.offsets);
                assert(path_set(out@) =~= Set::<PathView>::empty());
            }
            while i < actual.addrs.len()
                invariant
                    i <= actual.addrs.len(),
                    path_set(out@) == attach_all(
                        addr_set(actual.addrs@.take(i as int)),
                        q@.offsets,
                    ),
                decreases actual.addrs.len() - i,
            {
                proof {
                    lemma_addr_set_take(actual.addrs@, i as int);
                    lemma_attach_all_insert(
                        addr_set(actual.addrs@.take(i as int)),
                        actual.addrs@[i as int]@,
                        q@.offsets,
                    );
                }
                match attach_path(&actual.addrs[i], &q.offsets) {
                    Some(target) => {
                        proof {
                            lemma_path_set_push(out@, target);
                        }
                        out.push(target);
                    },
                    None => {},
                }
                i += 1;
            }
            proof {
                lemma_addr_set_take(actual.addrs@, i as int);
            }
        },
        None => {
            proof {
                lemma_path_set_push(out@, q);
                assert(path_set(out@) =~= Set::<PathView>::empty());
                assert(Set::<PathView>::empty().insert(q@) =~= set![q@]);
            }
            out.push(q);
        },
    }
    out
}

/// The addresses of the caller that the address `addr` of a summary stands
/// for.
pub fn substitute_footprint(addr: &Addr, actual_values: &Vec<AbsAddr>, type_actuals: &[Type]) -> (r:
    AbsAddr)
    ensures
        r@ == substitute_addr(addr@, addr_sets(actual_values@), types_view(type_actuals@)),
{
    match addr {
        Addr::Constant(c) => AbsAddr::constant(*c),
        Addr::Footprint(p) => {
            let q = p.instantiate(type_actuals);
            match argument_index(&q, actual_values.len()) {
                Some(idx) => {
                    let actual = &actual_values[idx];
                    let mut out = AbsAddr::new();
                    let mut i: usize = 0;
                    proof {
                        lemma_addr_set_take(actual.addrs@, 0);
                        lemma_follow_all_insert(Set::empty(), AddrView::Constant(0), q@.offsets);
                    }
                    while i < actual.addrs.len()
                        invariant
                            i <= actual.addrs.len(),
                            out@ == follow_all(addr_set(actual.addrs@.take(i as int)), q@.offsets),
                        decreases actual.addrs.len() - i,
                    {
                        proof {
                            lemma_addr_set_take(actual.addrs@, i as int);
                            lemma_follow_all_insert(
                                addr_set(actual.addrs@.take(i as int)),
                                actual.addrs@[i as int]@,
                                q@.offsets,
                            );
                        }
                        match follow_addr(&actual.addrs[i], &q.offsets) {
                            Some(b) => {
                                out.insert(b);
                            },
                            None => {},
                        }
                        i += 1;
                    }
                    proof {
                        lemma_addr_set_take(actual.addrs@, i as int);
                    }
                    out
                },
                None => AbsAddr::footprint(q),
            }
        },
    }
}

/// The addresses of the caller that the addresses `value` of a summary
/// stand for.
pub fn substitute_footprints(
    value: &AbsAddr,
    actual_values: &Vec<AbsAddr>,
    type_actuals: &[Type],
) -> (r: AbsAddr)
    ensures
        r@ == substitute_value(value@, addr_sets(actual_values@), types_view(type_actuals@)),
{
    let mut out = AbsAddr::new();
    let mut i: usize = 0;
    proof {
        lemma_addr_set_take(value.addrs@, 0);
        lemma_substitute_value_insert(
            Set::empty(),
            AddrView::Constant(0),
            addr_sets(actual_values@),
            types_view(type_actuals@),
        );
    }
    while i < value.addrs.len()
        invariant
            i <= value.addrs.len(),
            out@ == substitute_value(
                addr_set(value.addrs@.take(i as int)),
                addr_sets(actual_values@),
                types_view(type_actuals@),
            ),
        decreases value.addrs.len() - i,
    {
        proof {
            lemma_addr_set_take(value.addrs@, i as int);
            lemma_substitute_value_insert(
                addr_set(value.addrs@.take(i as int)),
                value.addrs@[i as int]@,
                addr_sets(actual_values@),
                types_view(type_actuals@),
            );
        }
        let part = substitute_footprint(&value.addrs[i], actual_values, type_actuals);
        out.join(&part);
        i += 1;
    }
    proof {
        lemma_addr_set_take(value.addrs@, i as int);
    }
    out
}

/// Whether the set holds a statically known address.
pub fn holds_constant(value: &AbsAddr) -> (r: bool)
    ensures
        r == has_constant(value@),
{
    let mut i: usize = 0;
    while i < value.addrs.len()
        invariant
            i <= value.addrs.len(),
            forall|j: int| 0 <= j < i ==> !(#[trigger] value.addrs@[j]@ is Constant),
        decreases value.addrs.len() - i,
    {
        match &value.addrs[i] {
            Addr::Constant(c) => {
                assert(value.addrs@[i as int]@ == AddrView::Constant(*c));
                assert(value@.contains(AddrView::Constant(*c)));
                return true;
            },
            Addr::Footprint(_) => {},
        }
        i += 1;
    }
    assert(!has_constant(value@)) by {
        if has_constant(value@) {
            let c = choose|c: u128| value@.contains(AddrView::Constant(c));
            let j = choose|j: int|
                0 <= j < value.addrs@.len() && #[trigger] value.addrs@[j]@ == AddrView::Constant(c);
            assert(value.addrs@[j]@ is Constant);
        }
    }
    false
}

/// Whether the path `path` of a summary cannot be re-rooted at the
/// arguments.
fn is_bad_offset(path: &AccessPath, actual_values: &Vec<AbsAddr>) -> (r: bool)
    ensures
        r == bad_offset(path@, addr_sets(actual_values@)),
{
    match argument_index(path, actual_values.len()) {
        Some(idx) => {
            if path.offsets.len() == 0 {
                return false;
            }
            let first_is_global = match &path.offsets[0] {
                Offset::Global(_) => true,
                _ => false,
            };
            !first_is_global && holds_constant(&actual_values[idx])
        },
        None => false,
    }
}

/// Whether every path of the accesses `callee` can be re-rooted at the
/// arguments.
pub fn can_apply(callee: &AccessPathMap<Access>, actual_values: &Vec<AbsAddr>) -> (r: bool)
    ensures
        r == summary_applies(callee@, addr_sets(actual_values@)),
{
    let mut i: usize = 0;
    while i < callee.len()
        invariant
            i <= callee.pairs().len(),
            forall|j: int|
                0 <= j < i ==> !bad_offset(
                    (#[trigger] callee.pairs()[j]).0,
                    addr_sets(actual_values@),
                ),
        decreases callee.pairs().len() - i,
    {
        if is_bad_offset(callee.path_at(i), actual_values) {
            assert(callee@.contains_key(callee.pairs()[i as int].0));
            return false;
        }
        i += 1;
    }
    assert forall|p: PathView| #[trigger] callee@.contains_key(p) implies !bad_offset(
        p,
        addr_sets(actual_values@),
    ) by {
        let j = index_of_key(callee.pairs(), p);
        assert(callee.pairs()[j].0 == p);
    }
    true
}

impl ReadWriteSetState {
    /// What the slots `actuals` hold: for each slot a copy of the addresses
    /// bound to it, or the empty set where it is not bound.
    pub fn actual_values(&self, actuals: &[usize]) -> (r: Vec<AbsAddr>)
        requires
            self.wf(),
        ensures
            addr_sets(r@) == actual_values(self@.locals, actuals@),
    {
        let mut out: Vec<AbsAddr> = Vec::new();
        let mut i: usize = 0;
        while i < actuals.len()
            invariant
                i <= actuals.len(),
                self.wf(),
                out.len() == i,
                forall|j: int|
                    0 <= j < i ==> (#[trigger] out@[j])@ == actual_values(
                        self@.locals,
                        actuals@,
                    )[j],
            decreases actuals.len() - i,
        {
            let value = match self.get_local(actuals[i]) {
                Some(v) => v.clone(),
                None => AbsAddr::new(),
            };
            out.push(value);
            i += 1;
        }
        assert(addr_sets(out@) =~= actual_values(self@.locals, actuals@));
        out
    }

    /// Applies the summary of a callee to the state of the caller at a call
    /// with the argument slots `actuals`, the type arguments `type_actuals`
    /// and the destination slots `rets`.
    ///
    /// Every access of the summary is joined into the accesses of the caller
    /// at each path that it stands for there. Each destination slot is bound
    /// to what the summary returns for it. Fails, and changes nothing, if an
    /// argument may be a statically known address and the summary follows
    /// its formal by an offset that is not a resource.
    pub fn apply_summary(
        &mut self,
        callee_summary: &Self,
        actuals: &[usize],
        type_actuals: &[Type],
        rets: &[usize],
    ) -> (r: Result<(), AnalysisError>)
        requires
            old(self).wf(),
            callee_summary.wf(),
        ensures
            final(self).wf(),
            accesses_grow(old(self)@.accesses, final(self)@.accesses),
            match r {
                Ok(_) => apply_summary_step(
                    old(self)@,
                    callee_summary@,
                    actuals@,
                    types_view(type_actuals@),
                    rets@,
                ) == Ok::<StateView, ErrorView>(final(self)@),
                Err(e) => apply_summary_step(
                    old(self)@,
                    callee_summary@,
                    actuals@,
                    types_view(type_actuals@),
                    rets@,
                ) == Err::<StateView, ErrorView>(e@) && final(self)@ == old(self)@,
            },
    {
        let actual_values = self.actual_values(actuals);
        if !can_apply(&callee_summary.accesses, &actual_values) {
            return Err(AnalysisError::BadOffsetForAddress);
        }
        let ghost values = addr_sets(actual_values@);
        let ghost type_args = types_view(type_actuals@);
        let ghost callee_pairs = callee_summary.accesses.pairs();
        let mut i: usize = 0;
        proof {
            lemma_assoc_take(callee_pairs, 0);
            lemma_applied_empty(old(self)@.accesses, values, type_args);
        }
        while i < callee_summary.accesses.len()
            invariant
                i <= callee_pairs.len(),
                callee_pairs == callee_summary.accesses.pairs(),
                callee_summary.wf(),
                self.wf(),
                values == addr_sets(actual_values@),
                type_args == types_view(type_actuals@),
                self@.locals == old(self)@.locals,
                self@.accesses == applied_accesses(
                    old(self)@.accesses,
                    assoc_map(callee_pairs.take(i as int)),
                    values,
                    type_args,
                ),
            decreases callee_pairs.len() - i,
        {
            proof {
                lemma_assoc_take(callee_pairs, i as int);
                lemma_applied_step(
                    old(self)@.accesses,
                    assoc_map(callee_pairs.take(i as int)),
                    callee_pairs[i as int].0,
                    callee_pairs[i as int].1,
                    values,
                    type_args,
                );
            }
            let targets = call_targets(
                callee_summary.accesses.path_at(i),
                &actual_values,
                type_actuals,
            );
            let kind = *callee_summary.accesses.value_at(i);
            join_access_paths(&mut self.accesses, &targets, kind);
            i += 1;
        }
        proof {
            lemma_assoc_take(callee_pairs, i as int);
            lemma_applied_accesses_sound(
                old(self)@.accesses,
                callee_summary@.accesses,
                values,
                type_args,
            );
        }
        let mut j: usize = 0;
        assert(rets@.take(0) =~= Seq::<usize>::empty());
        while j < rets.len()
            invariant
                j <= rets.len(),
                callee_summary.wf(),
                self.wf(),
                values == addr_sets(actual_values@),
                type_args == types_view(type_actuals@),
                self@.accesses == applied_accesses(
                    old(self)@.accesses,
                    callee_summary@.accesses,
                    values,
                    type_args,
                ),
                self@.locals == bind_returns(
                    old(self)@.locals,
                    callee_summary@.locals,
                    rets@.take(j as int),
                    values,
                    type_args,
                ),
            decreases rets.len() - j,
        {
            proof {
                assert(rets@.take(j + 1).drop_last() =~= rets@.take(j as int));
            }
            let ret_path = AccessPath::new_return(j);
            match callee_summary.locals.get(&ret_path) {
                Some(v) => {
                    let value = substitute_footprints(v, &actual_values, type_actuals);
                    self.bind_local(rets[j], value);
                },
                None => {},
            }
            j += 1;
        }
        assert(rets@.take(rets.len() as int) =~= rets@);
        Ok(())
    }
}

} // verus!
