use read_write_set::abs_addr::{AbsAddr, Addr};
use read_write_set::access_path::{AccessPath, GlobalKey, Offset, Root, StructKey};
use read_write_set::domain::{AbstractDomain, JoinResult};
use read_write_set::types::{ModuleId, PrimitiveType, StructId, Type};

fn u64_type() -> Type {
    Type::Primitive(PrimitiveType::U64)
}

fn bool_type() -> Type {
    Type::Primitive(PrimitiveType::Bool)
}

#[test]
fn instantiate_replaces_parameters() {
    let t = Type::Struct(
        ModuleId(1),
        StructId(2),
        vec![Type::TypeParameter(0), Type::Vector(Box::new(Type::TypeParameter(1)))],
    );
    let r = t.instantiate(&[u64_type(), bool_type()]);
    assert_eq!(
        r,
        Type::Struct(ModuleId(1), StructId(2), vec![u64_type(), Type::Vector(Box::new(bool_type()))])
    );
}

#[test]
fn instantiate_leaves_parameters_beyond_the_arguments() {
    let t = Type::Vector(Box::new(Type::TypeParameter(3)));
    assert_eq!(t.instantiate(&[u64_type()]), Type::Vector(Box::new(Type::TypeParameter(3))));
    assert_eq!(t.instantiate(&[]), Type::Vector(Box::new(Type::TypeParameter(3))));
}

#[test]
fn same_compares_types_by_structure() {
    let a = Type::Struct(ModuleId(1), StructId(2), vec![u64_type()]);
    let b = Type::Struct(ModuleId(1), StructId(2), vec![u64_type()]);
    let c = Type::Struct(ModuleId(1), StructId(2), vec![bool_type()]);
    let d = Type::Struct(ModuleId(1), StructId(2), vec![]);
    assert!(a.same(&b));
    assert!(!a.same(&c));
    assert!(!a.same(&d));
    assert!(!a.same(&u64_type()));
    assert!(a.clone().same(&a));
}

#[test]
fn paths_compare_by_root_and_offsets() {
    let mut p = AccessPath::new_formal(0);
    let q = AccessPath::new_formal(0);
    assert!(p.same(&q));
    p.add_offset(Offset::field(3));
    assert!(!p.same(&q));
    assert_eq!(p, AccessPath::new(Root::Formal(0), vec![Offset::Field(3)]));
    assert!(!AccessPath::new_local(0).same(&AccessPath::new_formal(0)));
    assert!(!AccessPath::new_return(0).same(&AccessPath::new_local(0)));
    assert!(p.clone().same(&p));
}

#[test]
fn extended_appends_offsets_from_a_position() {
    let base = AccessPath::new(Root::Formal(1), vec![Offset::Field(0)]);
    let offsets = vec![Offset::VectorIndex, Offset::Field(7), Offset::AddressConstant];
    assert_eq!(
        base.extended(&offsets, 1),
        AccessPath::new(
            Root::Formal(1),
            vec![Offset::Field(0), Offset::Field(7), Offset::AddressConstant]
        )
    );
    assert_eq!(base.extended(&offsets, 3), base);
}

#[test]
fn path_instantiation_reaches_roots_and_offsets() {
    let key = StructKey::new(ModuleId(0), StructId(5), vec![Type::TypeParameter(0)]);
    let p = AccessPath::new(
        Root::Global(GlobalKey { address: 7, resource: key.clone() }),
        vec![Offset::Global(key), Offset::Field(1)],
    );
    let inst = StructKey::new(ModuleId(0), StructId(5), vec![bool_type()]);
    assert_eq!(
        p.instantiate(&[bool_type()]),
        AccessPath::new(
            Root::Global(GlobalKey { address: 7, resource: inst.clone() }),
            vec![Offset::Global(inst), Offset::Field(1)],
        )
    );
}

#[test]
fn abs_addr_is_a_set() {
    let mut a = AbsAddr::new();
    assert!(a.is_empty());
    assert!(a.insert(Addr::Constant(5)));
    assert!(!a.insert(Addr::Constant(5)));
    assert!(a.insert(Addr::Footprint(AccessPath::new_formal(0))));
    assert_eq!(a.addrs.len(), 2);
    assert!(a.contains(&Addr::Constant(5)));
    assert!(!a.contains(&Addr::Constant(6)));
    assert!(!a.is_empty());
}

#[test]
fn abs_addr_join_is_union() {
    let mut a = AbsAddr::constant(1);
    let b = AbsAddr::formal(2);
    assert_eq!(a.join(&b), JoinResult::Changed);
    assert_eq!(a.join(&b), JoinResult::Unchanged);
    assert!(a.contains(&Addr::Constant(1)));
    assert!(a.contains(&Addr::Footprint(AccessPath::new_formal(2))));
    assert_eq!(a.addrs.len(), 2);
    let c = a.duplicate();
    assert_eq!(c.addrs.len(), 2);
}

#[test]
fn add_offset_extends_footprints_and_drops_constants() {
    let mut a = AbsAddr::formal(0);
    a.insert(Addr::Constant(9));
    let r = a.add_offset(&Offset::VectorIndex);
    assert_eq!(r.addrs.len(), 1);
    assert!(r.contains(&Addr::Footprint(AccessPath::new(
        Root::Formal(0),
        vec![Offset::VectorIndex]
    ))));
    let paths = a.footprint_paths();
    assert_eq!(paths, vec![AccessPath::new_formal(0)]);
}

#[test]
fn global_paths_extend_footprints_and_root_constants() {
    let mut a = AbsAddr::formal(0);
    a.insert(Addr::Constant(0xABC));
    let key = StructKey::new(ModuleId(1), StructId(2), vec![]);
    let paths = a.global_paths(&key);
    assert_eq!(paths.len(), 2);
    assert!(paths.contains(&AccessPath::new(Root::Formal(0), vec![Offset::Global(key.clone())])));
    assert!(paths.contains(&AccessPath::new_global_constant(0xABC, key)));
}
