use read_write_set::abs_addr::{AbsAddr, Addr};
use read_write_set::access::Access;
use read_write_set::access_path::{AccessPath, Offset, Root, StructKey};
use read_write_set::cache::{FunctionEntry, SummaryCache};
use read_write_set::display::{
    format_read_write_set_annotation, read_write_set_report, write_addrs, write_decimal,
    write_key, write_path, write_type, write_types,
};
use read_write_set::path_map::{AccessPathMap, Entry};
use read_write_set::state::ReadWriteSetState;
use read_write_set::types::{FunId, ModuleId, PrimitiveType, StructId, Type};

fn decimal(n: u128) -> String {
    let mut out = String::new();
    write_decimal(&mut out, n);
    out
}

fn path_text(path: &AccessPath) -> String {
    let mut out = String::new();
    write_path(&mut out, path);
    out
}

#[test]
fn decimal_digits() {
    assert_eq!(decimal(0), "0");
    assert_eq!(decimal(7), "7");
    assert_eq!(decimal(10), "10");
    assert_eq!(decimal(1234567890), "1234567890");
    assert_eq!(decimal(u128::MAX), "340282366920938463463374607431768211455");
    let mut out = String::from("n=");
    write_decimal(&mut out, 42);
    assert_eq!(out, "n=42");
}

#[test]
fn types_as_text() {
    let mut out = String::new();
    write_type(&mut out, &Type::Primitive(PrimitiveType::Address));
    assert_eq!(out, "address");
    let t = Type::Struct(
        ModuleId(1),
        StructId(2),
        vec![
            Type::TypeParameter(0),
            Type::Vector(Box::new(Type::Primitive(PrimitiveType::Bool))),
            Type::Struct(ModuleId(3), StructId(4), vec![]),
        ],
    );
    let mut out = String::new();
    write_type(&mut out, &t);
    assert_eq!(out, "1::2<#0, vector<bool>, 3::4<>>");
    let mut out = String::new();
    write_types(
        &mut out,
        &vec![
            Type::Primitive(PrimitiveType::U8),
            Type::Primitive(PrimitiveType::U64),
            Type::Primitive(PrimitiveType::U128),
            Type::Primitive(PrimitiveType::Signer),
        ],
    );
    assert_eq!(out, "u8, u64, u128, signer");
    let mut out = String::new();
    write_types(&mut out, &vec![]);
    assert_eq!(out, "");
}

#[test]
fn keys_and_paths_as_text() {
    let key = StructKey::new(ModuleId(4), StructId(5), vec![Type::Primitive(PrimitiveType::U64)]);
    let mut out = String::new();
    write_key(&mut out, &key);
    assert_eq!(out, "4::5<u64>");
    assert_eq!(path_text(&AccessPath::new_formal(0)), "Formal(0)");
    assert_eq!(path_text(&AccessPath::new_local(12)), "Local(12)");
    assert_eq!(path_text(&AccessPath::new_return(3)), "Ret(3)");
    assert_eq!(path_text(&AccessPath::new_global_constant(0xABC, key.clone())), "@2748/4::5<u64>");
    let p = AccessPath::new(
        Root::Formal(1),
        vec![Offset::Field(3), Offset::VectorIndex, Offset::Global(key), Offset::AddressConstant],
    );
    assert_eq!(path_text(&p), "Formal(1)/3/[_]/4::5<u64>/@");
}

#[test]
fn addresses_as_text() {
    let mut value = AbsAddr::constant(5);
    value.insert(Addr::Footprint(AccessPath::new(Root::Formal(0), vec![Offset::Field(1)])));
    value.insert(Addr::Constant(6));
    let mut out = String::new();
    write_addrs(&mut out, &value);
    assert_eq!(out, "@5, Formal(0)/1, @6");
    let mut out = String::new();
    write_addrs(&mut out, &AbsAddr::new());
    assert_eq!(out, "");
}

#[test]
fn state_as_text() {
    let mut state = ReadWriteSetState::initial(2);
    state.record_access(0, Access::Write).unwrap();
    state.access_offset(1, Offset::VectorIndex, Access::Read).unwrap();
    state.accesses.insert(AccessPath::new_formal(7), Access::Borrow);
    state.accesses.insert(AccessPath::new_formal(8), Access::ReadWriteBorrow);
    assert_eq!(
        state.display(),
        "Accesses:\nFormal(0): Write\nFormal(1)/[_]: Read\nFormal(7): Borrow\n\
         Formal(8): ReadWriteBorrow\nLocals:\nLocal(0): {Formal(0)}\nLocal(1): {Formal(1)}\n"
    );
    assert_eq!(ReadWriteSetState::default().display(), "Accesses:\nLocals:\n");
}

#[test]
fn annotation_only_in_front_of_the_first_instruction() {
    let mut state = ReadWriteSetState::initial(1);
    state.record_access(0, Access::Read).unwrap();
    let text = "Accesses:\nFormal(0): Read\nLocals:\nLocal(0): {Formal(0)}\n";
    assert_eq!(format_read_write_set_annotation(Some(&state), 0), Some(text.to_string()));
    assert_eq!(format_read_write_set_annotation(Some(&state), 1), None);
    assert_eq!(format_read_write_set_annotation(Some(&state), u16::MAX), None);
    assert_eq!(format_read_write_set_annotation(None, 0), None);
}

#[test]
fn report_lists_the_functions_with_a_summary() {
    let mut cache = SummaryCache::new();
    assert_eq!(read_write_set_report(&cache), "");
    let mut summary = ReadWriteSetState::default();
    summary.accesses.insert(AccessPath::new_formal(0), Access::Write);
    cache.add(FunctionEntry {
        module: ModuleId(0),
        id: FunId(0),
        module_name: "Coin".to_string(),
        name: "burn".to_string(),
        summary: Some(summary),
    });
    cache.add(FunctionEntry {
        module: ModuleId(1),
        id: FunId(0),
        module_name: "Vector".to_string(),
        name: "length".to_string(),
        summary: None,
    });
    cache.add(FunctionEntry {
        module: ModuleId(0),
        id: FunId(1),
        module_name: "Coin".to_string(),
        name: "zero".to_string(),
        summary: Some(ReadWriteSetState::default()),
    });
    assert_eq!(
        read_write_set_report(&cache),
        "Coin::burn\nAccesses:\nFormal(0): Write\nLocals:\n\nCoin::zero\nAccesses:\nLocals:\n\n"
    );
}

#[test]
fn well_formedness_can_be_tested() {
    let mut map: AccessPathMap<Access> = AccessPathMap::new();
    assert!(map.is_well_formed());
    map.insert(AccessPath::new_formal(0), Access::Read);
    map.insert(AccessPath::new_formal(1), Access::Read);
    map.insert(AccessPath::new_formal(0), Access::Write);
    assert!(map.is_well_formed());
    assert_eq!(map.len(), 2);
    map.entries.push(Entry { path: AccessPath::new_formal(1), value: Access::Borrow });
    assert!(!map.is_well_formed());
    let mut state = ReadWriteSetState::initial(3);
    assert!(state.is_well_formed());
    state.locals.entries.push(Entry { path: AccessPath::new_local(2), value: AbsAddr::new() });
    assert!(!state.is_well_formed());
    let mut cache = SummaryCache::new();
    assert!(cache.is_well_formed());
    cache.functions.push(FunctionEntry {
        module: ModuleId(0),
        id: FunId(0),
        module_name: "M".to_string(),
        name: "f".to_string(),
        summary: Some(state),
    });
    assert!(!cache.is_well_formed());
}

#[test]
fn map_operations() {
    let mut map: AccessPathMap<Access> = AccessPathMap::new();
    let a = AccessPath::new_formal(0);
    let b = AccessPath::new(Root::Formal(0), vec![Offset::Field(1)]);
    let c = AccessPath::new_local(0);
    map.insert(a.clone(), Access::Read);
    map.insert(b.clone(), Access::Borrow);
    map.insert(c.clone(), Access::Write);
    assert_eq!(map.find(&b), Some(1));
    assert!(map.contains(&c));
    assert!(map.has_children(&Root::Formal(0)));
    assert!(!map.has_children(&Root::Local(0)));
    assert_eq!(map.path_at(2), &c);
    assert_eq!(map.value_at(2), &Access::Write);
    map.remove(&a);
    assert!(!map.contains(&a));
    assert_eq!(map.len(), 2);
    map.remove(&a);
    assert_eq!(map.len(), 2);
    map.remove_root(&Root::Formal(0));
    assert_eq!(map.len(), 1);
    assert!(map.contains(&c));
    let copy = map.clone();
    assert_eq!(copy.len(), 1);
    assert_eq!(copy.get(&c), Some(&Access::Write));
}
