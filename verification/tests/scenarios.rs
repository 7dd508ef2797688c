use read_write_set::abs_addr::{AbsAddr, Addr};
use read_write_set::access::Access;
use read_write_set::access_path::{AccessPath, Offset, Root, StructKey};
use read_write_set::analysis::ReadWriteSetAnalysis;
use read_write_set::bytecode::{Bytecode, Constant, Operation};
use read_write_set::cache::{FunctionEntry, SummaryCache};
use read_write_set::domain::JoinResult;
use read_write_set::error::AnalysisError;
use read_write_set::processor::ReadWriteSetProcessor;
use read_write_set::state::ReadWriteSetState;
use read_write_set::types::{FunId, ModuleId, PrimitiveType, StructId, Type};

fn access_at(state: &ReadWriteSetState, path: &AccessPath) -> Option<Access> {
    state.accesses.get(path).copied()
}

fn call(rets: Vec<usize>, oper: Operation, args: Vec<usize>) -> Bytecode {
    Bytecode::Call(rets, oper, args)
}

fn native(module: usize, id: usize, module_name: &str, name: &str) -> FunctionEntry {
    FunctionEntry {
        module: ModuleId(module),
        id: FunId(id),
        module_name: module_name.to_string(),
        name: name.to_string(),
        summary: None,
    }
}

fn summarize(cache: &SummaryCache, params: usize, code: &[Bytecode]) -> ReadWriteSetState {
    let analysis = ReadWriteSetAnalysis::new(cache);
    let mut state = ReadWriteSetProcessor::new().initial_state(params);
    assert_eq!(analysis.execute_block(&mut state, code), Ok(()));
    analysis.to_summary(state)
}

#[test]
fn write_through_a_formal() {
    let cache = SummaryCache::new();
    let summary = summarize(&cache, 2, &[call(vec![], Operation::WriteRef, vec![0, 1])]);
    assert_eq!(access_at(&summary, &AccessPath::new_formal(0)), Some(Access::Write));
    assert_eq!(summary.accesses.len(), 1);
}

#[test]
fn callee_write_reaches_the_caller() {
    let field_v = 3;
    let g_code = [
        call(
            vec![2],
            Operation::BorrowField(ModuleId(0), StructId(0), vec![], field_v),
            vec![0],
        ),
        call(vec![], Operation::WriteRef, vec![2, 1]),
    ];
    let empty = SummaryCache::new();
    let g = summarize(&empty, 2, &g_code);
    let at_field = AccessPath::new(Root::Formal(0), vec![Offset::Field(field_v)]);
    assert_eq!(access_at(&g, &at_field), Some(Access::Write));

    let mut cache = SummaryCache::new();
    cache.add(FunctionEntry {
        module: ModuleId(0),
        id: FunId(1),
        module_name: "M".to_string(),
        name: "g".to_string(),
        summary: Some(g),
    });
    let f_code = [call(vec![], Operation::Function(ModuleId(0), FunId(1), vec![]), vec![0, 1])];
    let f = summarize(&cache, 2, &f_code);
    assert_eq!(access_at(&f, &at_field), Some(Access::Write));
    assert_eq!(f.accesses.len(), 1);
}

#[test]
fn vector_borrow_mut_then_write() {
    let mut cache = SummaryCache::new();
    cache.add(native(9, 0, "Vector", "borrow_mut"));
    let code = [
        call(vec![3], Operation::Function(ModuleId(9), FunId(0), vec![]), vec![0, 1]),
        call(vec![], Operation::WriteRef, vec![3, 2]),
    ];
    let summary = summarize(&cache, 3, &code);
    let at_index = AccessPath::new(Root::Formal(0), vec![Offset::VectorIndex]);
    assert_eq!(access_at(&summary, &at_index), Some(Access::ReadWriteBorrow));
    assert_eq!(summary.accesses.len(), 1);
}

#[test]
fn vector_borrow_alone_reads_the_index() {
    let mut cache = SummaryCache::new();
    cache.add(native(9, 0, "Vector", "borrow"));
    let code = [call(vec![3], Operation::Function(ModuleId(9), FunId(0), vec![]), vec![0, 1])];
    let summary = summarize(&cache, 2, &code);
    let at_index = AccessPath::new(Root::Formal(0), vec![Offset::VectorIndex]);
    assert_eq!(access_at(&summary, &at_index), Some(Access::Read));
}

#[test]
fn move_from_a_constant_address() {
    let cache = SummaryCache::new();
    let r = Type::Primitive(PrimitiveType::U64);
    let code = [
        Bytecode::Load(1, Constant::Address(0xABC)),
        call(vec![2], Operation::MoveFrom(ModuleId(4), StructId(5), vec![r.clone()]), vec![1]),
    ];
    let summary = summarize(&cache, 0, &code);
    let key = StructKey::new(ModuleId(4), StructId(5), vec![r]);
    let at_resource = AccessPath::new_global_constant(0xABC, key);
    assert_eq!(access_at(&summary, &at_resource), Some(Access::Write));
    assert_eq!(summary.accesses.len(), 1);
}

#[test]
fn merge_of_borrow_and_write() {
    let cache = SummaryCache::new();
    let analysis = ReadWriteSetAnalysis::new(&cache);
    let borrow = call(vec![2], Operation::BorrowField(ModuleId(0), StructId(0), vec![], 1), vec![0]);
    let write = call(vec![], Operation::WriteRef, vec![2, 1]);
    let mut then_arm = ReadWriteSetState::initial(2);
    assert_eq!(analysis.execute(&mut then_arm, &borrow, 0), Ok(()));
    let mut else_arm = ReadWriteSetState::initial(2);
    assert_eq!(analysis.execute(&mut else_arm, &borrow, 0), Ok(()));
    assert_eq!(analysis.execute(&mut else_arm, &write, 1), Ok(()));
    let at_field = AccessPath::new(Root::Formal(0), vec![Offset::Field(1)]);
    assert_eq!(access_at(&then_arm, &at_field), Some(Access::Borrow));
    assert_eq!(access_at(&else_arm, &at_field), Some(Access::Write));
    assert_eq!(then_arm.join(&else_arm), JoinResult::Changed);
    assert_eq!(access_at(&then_arm, &at_field), Some(Access::Write));
}

#[test]
fn unlisted_native_function_is_named() {
    let mut cache = SummaryCache::new();
    cache.add(native(9, 0, "Vector", "reverse"));
    let analysis = ReadWriteSetAnalysis::new(&cache);
    let mut state = ReadWriteSetState::initial(1);
    let instr = call(vec![], Operation::Function(ModuleId(9), FunId(0), vec![]), vec![0]);
    assert_eq!(
        analysis.execute(&mut state, &instr, 0),
        Err(AnalysisError::UnsupportedNativeFunction {
            module: "Vector".to_string(),
            function: "reverse".to_string(),
        })
    );
    assert_eq!(state.accesses.len(), 0);
    assert_eq!(state.locals.len(), 1);
}

#[test]
fn accesses_only_grow() {
    let cache = SummaryCache::new();
    let analysis = ReadWriteSetAnalysis::new(&cache);
    let code = vec![
        call(vec![], Operation::WriteRef, vec![0, 1]),
        call(vec![3], Operation::ReadRef, vec![0]),
        Bytecode::Assign(0, 9),
        call(vec![], Operation::Destroy, vec![1]),
        call(vec![4], Operation::BorrowField(ModuleId(0), StructId(0), vec![], 1), vec![3]),
        Bytecode::Ret(vec![4]),
        Bytecode::Nop,
    ];
    let mut state = ReadWriteSetState::initial(2);
    let root = AccessPath::new_formal(0);
    let mut seen: Vec<(AccessPath, Access)> = Vec::new();
    for (offset, instr) in code.iter().enumerate() {
        assert_eq!(analysis.execute(&mut state, instr, offset as u16), Ok(()));
        for (path, kind) in seen.iter() {
            let now = access_at(&state, path).expect("a recorded path stays recorded");
            assert!(kind.subsumed_by(&now));
        }
        seen = state.accesses.entries.iter().map(|e| (e.path.clone(), e.value)).collect();
    }
    assert_eq!(access_at(&state, &root), Some(Access::ReadWriteBorrow));
    assert_eq!(
        access_at(&state, &AccessPath::new(Root::Formal(0), vec![Offset::Field(1)])),
        Some(Access::Borrow)
    );
}

#[test]
fn summary_is_compact() {
    let cache = SummaryCache::new();
    let code = [
        call(vec![3], Operation::BorrowField(ModuleId(0), StructId(0), vec![], 1), vec![0]),
        Bytecode::Load(4, Constant::Address(7)),
        call(vec![], Operation::WriteRef, vec![1, 4]),
        Bytecode::Ret(vec![3]),
    ];
    let summary = summarize(&cache, 2, &code);
    for entry in summary.locals.entries.iter() {
        match &entry.path.root {
            Root::Local(_) => panic!("a slot of the frame is left in the summary"),
            Root::Formal(_) => assert!(summary.locals.has_children(&entry.path.root)),
            _ => {}
        }
    }
    let field = AccessPath::new(Root::Formal(0), vec![Offset::Field(1)]);
    assert!(summary.locals.get(&field).is_some());
    assert!(summary.locals.get(&AccessPath::new_formal(1)).is_none());
    let returned = summary.locals.get(&AccessPath::new_return(0)).expect("the return is bound");
    assert!(returned.contains(&Addr::Footprint(field)));
    assert_eq!(summary.locals.len(), 2);
    assert_eq!(summary.accesses.len(), 2);
}

#[test]
fn compaction_keeps_formals_with_children() {
    let cache = SummaryCache::new();
    let analysis = ReadWriteSetAnalysis::new(&cache);
    let mut state = ReadWriteSetState::default();
    state.locals.insert(AccessPath::new_formal(0), AbsAddr::constant(1));
    state.locals.insert(AccessPath::new_formal(1), AbsAddr::constant(2));
    state.locals.insert(
        AccessPath::new(Root::Formal(1), vec![Offset::VectorIndex]),
        AbsAddr::constant(3),
    );
    state.locals.insert(AccessPath::new_local(5), AbsAddr::constant(4));
    state.locals.insert(
        AccessPath::new(Root::Local(5), vec![Offset::Field(0)]),
        AbsAddr::constant(5),
    );
    state.locals.insert(AccessPath::new_return(0), AbsAddr::constant(6));
    state.locals.insert(
        AccessPath::new_global_constant(1, StructKey::new(ModuleId(0), StructId(0), vec![])),
        AbsAddr::constant(7),
    );
    let summary = analysis.to_summary(state);
    assert_eq!(summary.locals.len(), 4);
    assert!(summary.locals.get(&AccessPath::new_formal(0)).is_none());
    assert!(summary.locals.get(&AccessPath::new_formal(1)).is_some());
    assert!(summary.locals.get(&AccessPath::new_local(5)).is_none());
    assert!(summary.locals.get(&AccessPath::new_return(0)).is_some());
}

#[test]
fn processor_has_a_name() {
    let processor = ReadWriteSetProcessor::new();
    assert_eq!(processor.name(), "read_write_set_analysis");
    assert_eq!(*processor, ReadWriteSetProcessor());
}
