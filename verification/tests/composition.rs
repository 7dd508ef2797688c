use read_write_set::abs_addr::{AbsAddr, Addr};
use read_write_set::access::Access;
use read_write_set::access_path::{AccessPath, Offset, Root, StructKey};
use read_write_set::error::AnalysisError;
use read_write_set::state::ReadWriteSetState;
use read_write_set::summary::{attach_path, call_targets, can_apply, follow_addr, substitute_footprints};
use read_write_set::types::{ModuleId, PrimitiveType, StructId, Type};

fn access_at(state: &ReadWriteSetState, path: &AccessPath) -> Option<Access> {
    state.accesses.get(path).copied()
}

fn resource(types: Vec<Type>) -> StructKey {
    StructKey::new(ModuleId(1), StructId(2), types)
}

fn summary_with(path: AccessPath, kind: Access) -> ReadWriteSetState {
    let mut s = ReadWriteSetState::default();
    s.accesses.insert(path, kind);
    s
}

#[test]
fn attach_extends_a_footprint() {
    let base = Addr::Footprint(AccessPath::new(Root::Formal(2), vec![Offset::Field(1)]));
    let r = attach_path(&base, &vec![Offset::VectorIndex]);
    assert_eq!(
        r,
        Some(AccessPath::new(Root::Formal(2), vec![Offset::Field(1), Offset::VectorIndex]))
    );
    assert_eq!(
        attach_path(&base, &vec![]),
        Some(AccessPath::new(Root::Formal(2), vec![Offset::Field(1)]))
    );
}

#[test]
fn attach_roots_a_resource_at_a_constant() {
    let key = resource(vec![]);
    let r = attach_path(&Addr::Constant(9), &vec![Offset::Global(key.clone()), Offset::Field(3)]);
    let mut expected = AccessPath::new_global_constant(9, key);
    expected.add_offset(Offset::Field(3));
    assert_eq!(r, Some(expected));
    assert_eq!(attach_path(&Addr::Constant(9), &vec![Offset::Field(3)]), None);
    assert_eq!(attach_path(&Addr::Constant(9), &vec![]), None);
}

#[test]
fn follow_without_offsets_is_the_address_itself() {
    assert_eq!(follow_addr(&Addr::Constant(9), &vec![]), Some(Addr::Constant(9)));
    assert_eq!(follow_addr(&Addr::Constant(9), &vec![Offset::VectorIndex]), None);
    let p = AccessPath::new_formal(0);
    assert_eq!(
        follow_addr(&Addr::Footprint(p), &vec![Offset::VectorIndex]),
        Some(Addr::Footprint(AccessPath::new(Root::Formal(0), vec![Offset::VectorIndex])))
    );
}

#[test]
fn call_targets_expand_over_the_actuals() {
    let mut actual = AbsAddr::footprint(AccessPath::new_formal(5));
    actual.insert(Addr::Footprint(AccessPath::new(Root::Formal(6), vec![Offset::Field(0)])));
    let path = AccessPath::new(Root::Formal(0), vec![Offset::Field(1)]);
    let targets = call_targets(&path, &vec![actual], &[]);
    assert_eq!(targets.len(), 2);
    assert!(targets.contains(&AccessPath::new(Root::Formal(5), vec![Offset::Field(1)])));
    assert!(targets.contains(&AccessPath::new(
        Root::Formal(6),
        vec![Offset::Field(0), Offset::Field(1)]
    )));
}

#[test]
fn call_targets_keep_paths_that_start_at_no_argument() {
    let key = resource(vec![Type::TypeParameter(0)]);
    let path = AccessPath::new_global_constant(1, key);
    let targets = call_targets(&path, &vec![AbsAddr::formal(0)], &[Type::Primitive(PrimitiveType::U8)]);
    assert_eq!(
        targets,
        vec![AccessPath::new_global_constant(1, resource(vec![Type::Primitive(PrimitiveType::U8)]))]
    );
    let beyond = AccessPath::new_formal(3);
    assert_eq!(call_targets(&beyond, &vec![AbsAddr::formal(0)], &[]), vec![AccessPath::new_formal(3)]);
}

#[test]
fn call_targets_of_an_untracked_actual_are_none() {
    let path = AccessPath::new(Root::Formal(0), vec![Offset::Field(1)]);
    assert_eq!(call_targets(&path, &vec![AbsAddr::new()], &[]).len(), 0);
}

#[test]
fn apply_summary_joins_callee_accesses_at_the_actual() {
    let callee = summary_with(
        AccessPath::new(Root::Formal(0), vec![Offset::Field(7)]),
        Access::Write,
    );
    let mut caller = ReadWriteSetState::initial(2);
    let target = AccessPath::new(Root::Formal(1), vec![Offset::Field(7)]);
    caller.accesses.insert(target.clone(), Access::Read);
    assert_eq!(caller.apply_summary(&callee, &[1], &[], &[]), Ok(()));
    assert_eq!(access_at(&caller, &target), Some(Access::ReadWriteBorrow));
    assert_eq!(caller.accesses.len(), 1);
}

#[test]
fn composition_is_sound_for_writes() {
    let offsets = vec![Offset::Field(1), Offset::VectorIndex];
    let callee = summary_with(AccessPath::new(Root::Formal(0), offsets.clone()), Access::Write);
    let mut caller = ReadWriteSetState::default();
    let p = AccessPath::new(Root::Formal(4), vec![Offset::Field(9)]);
    caller.bind_local(3, AbsAddr::footprint(p.clone()));
    assert_eq!(caller.apply_summary(&callee, &[3], &[], &[]), Ok(()));
    let reached = p.extended(&offsets, 0);
    let kind = access_at(&caller, &reached).expect("the write reaches the caller");
    assert!(Access::Write.subsumed_by(&kind));
    assert_eq!(kind, Access::Write);
}

#[test]
fn apply_summary_never_weakens_the_caller() {
    let callee = summary_with(AccessPath::new_formal(0), Access::Borrow);
    let mut caller = ReadWriteSetState::initial(1);
    caller.record_access(0, Access::Write).unwrap();
    assert_eq!(caller.apply_summary(&callee, &[0], &[], &[]), Ok(()));
    assert_eq!(access_at(&caller, &AccessPath::new_formal(0)), Some(Access::Write));
}

#[test]
fn apply_summary_roots_resources_at_constant_actuals() {
    let key = resource(vec![]);
    let mut callee = summary_with(
        AccessPath::new(Root::Formal(0), vec![Offset::Global(key.clone()), Offset::Field(2)]),
        Access::Read,
    );
    callee.accesses.insert(AccessPath::new_formal(0), Access::Read);
    let mut caller = ReadWriteSetState::default();
    caller.bind_local(1, AbsAddr::constant(0xABC));
    assert_eq!(caller.apply_summary(&callee, &[1], &[], &[]), Ok(()));
    let mut expected = AccessPath::new_global_constant(0xABC, key);
    expected.add_offset(Offset::Field(2));
    assert_eq!(access_at(&caller, &expected), Some(Access::Read));
    assert_eq!(caller.accesses.len(), 1);
}

#[test]
fn apply_summary_rejects_a_bad_offset_under_a_constant() {
    let callee = summary_with(
        AccessPath::new(Root::Formal(0), vec![Offset::Field(2)]),
        Access::Read,
    );
    let mut caller = ReadWriteSetState::default();
    caller.bind_local(1, AbsAddr::constant(0xABC));
    caller.accesses.insert(AccessPath::new_formal(0), Access::Borrow);
    assert!(!can_apply(&callee.accesses, &caller.actual_values(&[1])));
    assert_eq!(
        caller.apply_summary(&callee, &[1], &[], &[4]),
        Err(AnalysisError::BadOffsetForAddress)
    );
    assert_eq!(caller.accesses.len(), 1);
    assert_eq!(caller.locals.len(), 1);
    assert_eq!(access_at(&caller, &AccessPath::new_formal(0)), Some(Access::Borrow));
}

#[test]
fn generic_instances_stay_apart() {
    let generic = resource(vec![Type::TypeParameter(0)]);
    let callee = summary_with(
        AccessPath::new(Root::Formal(0), vec![Offset::Global(generic)]),
        Access::Write,
    );
    let mut caller = ReadWriteSetState::initial(1);
    let u64_t = Type::Primitive(PrimitiveType::U64);
    let bool_t = Type::Primitive(PrimitiveType::Bool);
    assert_eq!(caller.apply_summary(&callee, &[0], &[u64_t.clone()], &[]), Ok(()));
    assert_eq!(caller.apply_summary(&callee, &[0], &[bool_t.clone()], &[]), Ok(()));
    let at_u64 = AccessPath::new(Root::Formal(0), vec![Offset::Global(resource(vec![u64_t]))]);
    let at_bool = AccessPath::new(Root::Formal(0), vec![Offset::Global(resource(vec![bool_t]))]);
    assert!(!at_u64.same(&at_bool));
    assert_eq!(access_at(&caller, &at_u64), Some(Access::Write));
    assert_eq!(access_at(&caller, &at_bool), Some(Access::Write));
    assert_eq!(caller.accesses.len(), 2);
}

#[test]
fn apply_summary_binds_return_values() {
    let mut callee = ReadWriteSetState::default();
    let mut returned = AbsAddr::footprint(AccessPath::new(Root::Formal(0), vec![Offset::Field(1)]));
    returned.insert(Addr::Constant(5));
    callee.bind_return(0, returned);
    let mut caller = ReadWriteSetState::initial(1);
    caller.bind_local(7, AbsAddr::constant(1));
    caller.bind_local(8, AbsAddr::constant(2));
    assert_eq!(caller.apply_summary(&callee, &[0], &[], &[7, 8]), Ok(()));
    let bound = caller.get_local(7).expect("the destination is bound");
    assert_eq!(bound.addrs.len(), 2);
    assert!(bound.contains(&Addr::Footprint(AccessPath::new(
        Root::Formal(0),
        vec![Offset::Field(1)]
    ))));
    assert!(bound.contains(&Addr::Constant(5)));
    let kept = caller.get_local(8).expect("the other destination stays bound");
    assert!(kept.contains(&Addr::Constant(2)));
    assert_eq!(kept.addrs.len(), 1);
}

#[test]
fn substituted_values_follow_the_actuals() {
    let mut value = AbsAddr::formal(0);
    value.insert(Addr::Footprint(AccessPath::new(Root::Formal(1), vec![Offset::Field(3)])));
    let mut first = AbsAddr::constant(4);
    first.insert(Addr::Footprint(AccessPath::new_formal(9)));
    let second = AbsAddr::constant(6);
    let r = substitute_footprints(&value, &vec![first, second], &[]);
    assert_eq!(r.addrs.len(), 2);
    assert!(r.contains(&Addr::Constant(4)));
    assert!(r.contains(&Addr::Footprint(AccessPath::new_formal(9))));
}

#[test]
fn actual_values_of_unbound_slots_are_empty() {
    let state = ReadWriteSetState::initial(1);
    let values = state.actual_values(&[0, 5]);
    assert_eq!(values.len(), 2);
    assert_eq!(values[0].addrs.len(), 1);
    assert!(values[1].is_empty());
}
