use read_write_set::abs_addr::{AbsAddr, Addr};
use read_write_set::access::Access;
use read_write_set::access_path::{AccessPath, Offset, Root, StructKey};
use read_write_set::domain::JoinResult;
use read_write_set::error::AnalysisError;
use read_write_set::state::ReadWriteSetState;
use read_write_set::types::{ModuleId, PrimitiveType, StructId, Type};

fn formal_field(formal: usize, field: usize) -> AccessPath {
    AccessPath::new(Root::Formal(formal), vec![Offset::Field(field)])
}

fn access_at(state: &ReadWriteSetState, path: &AccessPath) -> Option<Access> {
    state.accesses.get(path).copied()
}

fn holds(state: &ReadWriteSetState, slot: usize, addr: &Addr) -> bool {
    match state.get_local(slot) {
        Some(v) => v.contains(addr),
        None => false,
    }
}

fn size(state: &ReadWriteSetState, slot: usize) -> usize {
    state.get_local(slot).map(|v| v.addrs.len()).unwrap_or(0)
}

#[test]
fn default_state_is_empty() {
    let state = ReadWriteSetState::default();
    assert_eq!(state.accesses.len(), 0);
    assert_eq!(state.locals.len(), 0);
    assert!(!state.local_exists(0));
}

#[test]
fn initial_state_binds_each_formal_to_its_footprint() {
    let state = ReadWriteSetState::initial(2);
    assert_eq!(state.accesses.len(), 0);
    assert_eq!(state.locals.len(), 2);
    assert!(holds(&state, 0, &Addr::Footprint(AccessPath::new_formal(0))));
    assert!(holds(&state, 1, &Addr::Footprint(AccessPath::new_formal(1))));
    assert_eq!(size(&state, 0), 1);
    assert!(!state.local_exists(2));
}

#[test]
fn bind_local_overwrites_and_forgets_children() {
    let mut state = ReadWriteSetState::default();
    state.bind_local(3, AbsAddr::constant(1));
    state.locals.insert(
        AccessPath::new(Root::Local(3), vec![Offset::Field(0)]),
        AbsAddr::constant(2),
    );
    assert_eq!(state.locals.len(), 2);
    state.bind_local(3, AbsAddr::constant(7));
    assert_eq!(state.locals.len(), 1);
    assert!(holds(&state, 3, &Addr::Constant(7)));
    assert!(!holds(&state, 3, &Addr::Constant(1)));
}

#[test]
fn remove_local_erases_the_subtree() {
    let mut state = ReadWriteSetState::initial(2);
    state.locals.insert(
        AccessPath::new(Root::Local(0), vec![Offset::VectorIndex]),
        AbsAddr::constant(2),
    );
    state.remove_local(0);
    assert!(!state.local_exists(0));
    assert!(state.local_exists(1));
    assert_eq!(state.locals.len(), 1);
}

#[test]
fn copy_local_copies_a_bound_slot() {
    let mut state = ReadWriteSetState::initial(1);
    assert_eq!(state.copy_local(4, 0), Ok(()));
    assert!(holds(&state, 4, &Addr::Footprint(AccessPath::new_formal(0))));
    assert_eq!(size(&state, 4), 1);
}

#[test]
fn copy_local_fails_on_an_unbound_slot() {
    let mut state = ReadWriteSetState::initial(1);
    assert_eq!(state.copy_local(4, 9), Err(AnalysisError::UnboundLocal(9)));
    assert!(!state.local_exists(4));
    assert_eq!(state.locals.len(), 1);
}

#[test]
fn record_access_joins_into_every_footprint() {
    let mut state = ReadWriteSetState::initial(1);
    let mut both = AbsAddr::formal(0);
    both.insert(Addr::Footprint(formal_field(1, 2)));
    both.insert(Addr::Constant(5));
    state.bind_local(3, both);
    assert_eq!(state.record_access(3, Access::Read), Ok(()));
    assert_eq!(access_at(&state, &AccessPath::new_formal(0)), Some(Access::Read));
    assert_eq!(access_at(&state, &formal_field(1, 2)), Some(Access::Read));
    assert_eq!(state.accesses.len(), 2);
    assert_eq!(state.record_access(0, Access::Write), Ok(()));
    assert_eq!(access_at(&state, &AccessPath::new_formal(0)), Some(Access::ReadWriteBorrow));
    assert_eq!(access_at(&state, &formal_field(1, 2)), Some(Access::Read));
}

#[test]
fn record_access_is_a_weak_update() {
    let mut state = ReadWriteSetState::initial(1);
    assert_eq!(state.record_access(0, Access::Write), Ok(()));
    assert_eq!(state.record_access(0, Access::Borrow), Ok(()));
    assert_eq!(access_at(&state, &AccessPath::new_formal(0)), Some(Access::Write));
}

#[test]
fn record_access_fails_on_an_unbound_slot() {
    let mut state = ReadWriteSetState::initial(1);
    assert_eq!(state.record_access(5, Access::Read), Err(AnalysisError::UnboundLocal(5)));
    assert_eq!(state.accesses.len(), 0);
}

#[test]
fn access_offset_records_below_the_base() {
    let mut state = ReadWriteSetState::initial(1);
    assert_eq!(state.access_offset(0, Offset::VectorIndex, Access::Read), Ok(()));
    let p = AccessPath::new(Root::Formal(0), vec![Offset::VectorIndex]);
    assert_eq!(access_at(&state, &p), Some(Access::Read));
    assert_eq!(access_at(&state, &AccessPath::new_formal(0)), None);
    assert_eq!(state.locals.len(), 1);
    assert_eq!(
        state.access_offset(8, Offset::VectorIndex, Access::Read),
        Err(AnalysisError::UnboundLocal(8))
    );
}

#[test]
fn assign_offset_binds_records_and_seeds() {
    let mut state = ReadWriteSetState::initial(1);
    assert_eq!(state.assign_offset(2, 0, Offset::field(4), Access::Borrow), Ok(()));
    let p = formal_field(0, 4);
    assert_eq!(access_at(&state, &p), Some(Access::Borrow));
    assert!(holds(&state, 2, &Addr::Footprint(p.clone())));
    assert_eq!(size(&state, 2), 1);
    let seeded = state.locals.get(&p).expect("the extended path is bound");
    assert!(seeded.contains(&Addr::Footprint(p.clone())));
    assert_eq!(seeded.addrs.len(), 1);
    assert_eq!(
        state.assign_offset(2, 9, Offset::field(4), Access::Borrow),
        Err(AnalysisError::UnboundLocal(9))
    );
}

#[test]
fn write_ref_stores_the_value_at_every_footprint() {
    let mut state = ReadWriteSetState::initial(2);
    state.bind_local(5, AbsAddr::constant(42));
    assert_eq!(state.write_ref(0, 5), Ok(()));
    let stored = state.locals.get(&AccessPath::new_formal(0)).expect("the referent is bound");
    assert!(stored.contains(&Addr::Constant(42)));
    assert_eq!(stored.addrs.len(), 1);
    assert_eq!(state.accesses.len(), 0);
}

#[test]
fn write_ref_does_nothing_for_an_unbound_value() {
    let mut state = ReadWriteSetState::initial(1);
    assert_eq!(state.write_ref(0, 7), Ok(()));
    assert_eq!(state.write_ref(9, 7), Ok(()));
    assert_eq!(state.locals.len(), 1);
}

#[test]
fn write_ref_fails_on_an_unbound_reference() {
    let mut state = ReadWriteSetState::initial(1);
    assert_eq!(state.write_ref(9, 0), Err(AnalysisError::UnboundLocal(9)));
    assert_eq!(state.locals.len(), 1);
}

#[test]
fn global_paths_of_a_slot() {
    let mut state = ReadWriteSetState::initial(1);
    state.bind_local(1, AbsAddr::constant(0xABC));
    let key = StructKey::new(ModuleId(1), StructId(2), vec![Type::Primitive(PrimitiveType::U8)]);
    let types = [Type::Primitive(PrimitiveType::U8)];
    let paths = state.get_global_paths(1, &ModuleId(1), StructId(2), &types).unwrap();
    assert_eq!(paths, vec![AccessPath::new_global_constant(0xABC, key.clone())]);
    let paths = state.get_global_paths(0, &ModuleId(1), StructId(2), &types).unwrap();
    assert_eq!(paths, vec![AccessPath::new(Root::Formal(0), vec![Offset::Global(key)])]);
    assert_eq!(
        state.get_global_paths(6, &ModuleId(1), StructId(2), &types),
        Err(AnalysisError::UnboundLocal(6))
    );
}

#[test]
fn add_global_access_and_remove_global() {
    let mut state = ReadWriteSetState::initial(0);
    state.bind_local(1, AbsAddr::constant(3));
    let key = StructKey::new(ModuleId(1), StructId(2), vec![]);
    let p = AccessPath::new_global_constant(3, key);
    assert_eq!(state.add_global_access(1, &ModuleId(1), StructId(2), &[], Access::Read), Ok(()));
    assert_eq!(access_at(&state, &p), Some(Access::Read));
    state.locals.insert(p.clone(), AbsAddr::constant(8));
    assert_eq!(state.remove_global(1, &ModuleId(1), StructId(2), &[]), Ok(()));
    assert!(state.locals.get(&p).is_none());
    assert_eq!(access_at(&state, &p), Some(Access::Read));
    assert_eq!(
        state.add_global_access(4, &ModuleId(1), StructId(2), &[], Access::Read),
        Err(AnalysisError::UnboundLocal(4))
    );
    assert_eq!(
        state.remove_global(4, &ModuleId(1), StructId(2), &[]),
        Err(AnalysisError::UnboundLocal(4))
    );
}

#[test]
fn borrow_global_binds_the_resource_paths() {
    let mut state = ReadWriteSetState::initial(1);
    let mut addrs = AbsAddr::formal(0);
    addrs.insert(Addr::Constant(3));
    state.bind_local(1, addrs);
    let key = StructKey::new(ModuleId(1), StructId(2), vec![]);
    let through_ref = AccessPath::new(Root::Formal(0), vec![Offset::Global(key.clone())]);
    let at_constant = AccessPath::new_global_constant(3, key);
    state.locals.insert(through_ref.clone(), AbsAddr::constant(1));
    assert_eq!(state.borrow_global(2, 1, &ModuleId(1), StructId(2), &[]), Ok(()));
    assert_eq!(access_at(&state, &through_ref), Some(Access::Borrow));
    assert_eq!(access_at(&state, &at_constant), Some(Access::Borrow));
    assert!(state.locals.get(&through_ref).is_none());
    assert!(holds(&state, 2, &Addr::Footprint(through_ref)));
    assert!(holds(&state, 2, &Addr::Footprint(at_constant)));
    assert_eq!(size(&state, 2), 2);
    assert_eq!(
        state.borrow_global(2, 9, &ModuleId(1), StructId(2), &[]),
        Err(AnalysisError::UnboundLocal(9))
    );
}

#[test]
fn join_of_states_is_pointwise() {
    let mut a = ReadWriteSetState::initial(1);
    let mut b = ReadWriteSetState::initial(1);
    a.record_access(0, Access::Read).unwrap();
    b.record_access(0, Access::Write).unwrap();
    b.bind_local(0, AbsAddr::constant(1));
    b.bind_local(3, AbsAddr::constant(2));
    assert_eq!(a.join(&b), JoinResult::Changed);
    assert_eq!(access_at(&a, &AccessPath::new_formal(0)), Some(Access::ReadWriteBorrow));
    assert!(holds(&a, 0, &Addr::Footprint(AccessPath::new_formal(0))));
    assert!(holds(&a, 0, &Addr::Constant(1)));
    assert!(holds(&a, 3, &Addr::Constant(2)));
    assert_eq!(a.join(&b), JoinResult::Unchanged);
    let c = a.clone();
    assert_eq!(a.join(&c), JoinResult::Unchanged);
}
