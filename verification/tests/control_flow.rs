use read_write_set::access::Access;
use read_write_set::access_path::AccessPath;
use read_write_set::bytecode::{Bytecode, Operation};
use read_write_set::control_flow::{label_offset, merge_into, successors};
use read_write_set::error::AnalysisError;
use read_write_set::state::ReadWriteSetState;

fn code() -> Vec<Bytecode> {
    vec![
        Bytecode::Branch(7, 9, 0),
        Bytecode::Label(7),
        Bytecode::Call(vec![], Operation::WriteRef, vec![0, 1]),
        Bytecode::Jump(8),
        Bytecode::Label(9),
        Bytecode::Nop,
        Bytecode::Label(8),
        Bytecode::Label(7),
        Bytecode::Ret(vec![]),
        Bytecode::Abort(0),
        Bytecode::Jump(4),
    ]
}

#[test]
fn label_offset_finds_the_first_declaration() {
    let code = code();
    assert_eq!(label_offset(&code, 7), Ok(1));
    assert_eq!(label_offset(&code, 8), Ok(6));
    assert_eq!(label_offset(&code, 9), Ok(4));
    assert_eq!(label_offset(&code, 4), Err(AnalysisError::UnknownLabel(4)));
    assert_eq!(label_offset(&[], 0), Err(AnalysisError::UnknownLabel(0)));
}

#[test]
fn successors_follow_the_control_flow() {
    let code = code();
    assert_eq!(successors(&code, 0), Ok(vec![1, 4]));
    assert_eq!(successors(&code, 1), Ok(vec![2]));
    assert_eq!(successors(&code, 2), Ok(vec![3]));
    assert_eq!(successors(&code, 3), Ok(vec![6]));
    assert_eq!(successors(&code, 5), Ok(vec![6]));
    assert_eq!(successors(&code, 8), Ok(vec![]));
    assert_eq!(successors(&code, 9), Ok(vec![]));
    assert_eq!(successors(&code, 10), Err(AnalysisError::UnknownLabel(4)));
}

#[test]
fn branch_reports_its_first_missing_label() {
    let code = vec![Bytecode::Branch(1, 2, 0), Bytecode::Label(2)];
    assert_eq!(successors(&code, 0), Err(AnalysisError::UnknownLabel(1)));
    let code = vec![Bytecode::Branch(2, 1, 0), Bytecode::Label(2)];
    assert_eq!(successors(&code, 0), Err(AnalysisError::UnknownLabel(1)));
    let code = vec![Bytecode::Branch(3, 4, 0)];
    assert_eq!(successors(&code, 0), Err(AnalysisError::UnknownLabel(3)));
}

#[test]
fn merge_keeps_the_first_state_and_joins_the_others() {
    let mut slot: Option<ReadWriteSetState> = None;
    let mut first = ReadWriteSetState::initial(1);
    first.record_access(0, Access::Borrow).unwrap();
    assert!(merge_into(&mut slot, &first));
    assert!(!merge_into(&mut slot, &first));
    let mut second = ReadWriteSetState::initial(1);
    second.record_access(0, Access::Write).unwrap();
    assert!(merge_into(&mut slot, &second));
    assert!(!merge_into(&mut slot, &second));
    assert!(!merge_into(&mut slot, &first));
    let kept = slot.expect("a state is kept");
    assert_eq!(kept.accesses.get(&AccessPath::new_formal(0)), Some(&Access::Write));
    assert_eq!(kept.locals.len(), 1);
}
