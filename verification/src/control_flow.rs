//! The flow of control between the instructions of a procedure, and the
//! merge of states where paths through the procedure meet.

use crate::bytecode::Bytecode;
use crate::domain::JoinResult;
use crate::error::{AnalysisError, ErrorView};
use crate::state::{accesses_grow, ReadWriteSetState, StateView};
use vstd::prelude::*;

verus! {

/// Whether the instruction at position `i` of `code` declares the label
/// `label`, and no instruction in front of it does.
pub open spec fn is_label_at(code: Seq<Bytecode>, label: usize, i: int) -> bool {
    &&& 0 <= i < code.len()
    &&& code[i] == Bytecode::Label(label)
    &&& forall|j: int| 0 <= j < i ==> #[trigger] code[j] != Bytecode::Label(label)
}

/// Whether `code` declares the label `label`.
pub open spec fn has_label(code: Seq<Bytecode>, label: usize) -> bool {
    exists|i: int| 0 <= i < code.len() && #[trigger] code[i] == Bytecode::Label(label)
}

/// The positions at which control may continue behind the instruction at
/// position `offset`: the labels that a jump or a branch names, nothing
/// behind a return or an abort, the next position behind any other
/// instruction.
pub open spec fn flows_to(code: Seq<Bytecode>, offset: int, next: Seq<usize>) -> bool {
    match code[offset] {
        Bytecode::Jump(label) => next.len() == 1 && is_label_at(code, label, next[0] as int),
        Bytecode::Branch(then_label, else_label, _) => {
            &&& next.len() == 2
            &&& is_label_at(code, then_label, next[0] as int)
            &&& is_label_at(code, else_label, next[1] as int)
        },
        Bytecode::Ret(_) | Bytecode::Abort(_) => next.len() == 0,
        _ => next.len() == 1 && next[0] == offset + 1,
    }
}

/// The label that the instruction at position `offset` names and `code`
/// does not declare, if there is one: the first such label of a branch.
pub open spec fn missing_label(code: Seq<Bytecode>, offset: int) -> Option<usize> {
    match code[offset] {
        Bytecode::Jump(label) => if has_label(code, label) {
            None
        } else {
            Some(label)
        },
        Bytecode::Branch(then_label, else_label, _) => if !has_label(code, then_label) {
            Some(then_label)
        } else if !has_label(code, else_label) {
            Some(else_label)
        } else {
            None
        },
        _ => None,
    }
}

/// The position of the first instruction of `code` that declares the label
/// `label`.
pub fn label_offset(code: &[Bytecode], label: usize) -> (r: Result<usize, AnalysisError>)
    ensures
        match r {
            Ok(i) => is_label_at(code@, label, i as int),
            Err(e) => !has_label(code@, label) && e == AnalysisError::UnknownLabel(label),
        },
{
    let mut i: usize = 0;
    while i < code.len()
        invariant
            i <= code.len(),
            forall|j: int| 0 <= j < i ==> #[trigger] code@[j] != Bytecode::Label(label),
        decreases code.len() - i,
    {
        let found = match &code[i] {
            Bytecode::Label(l) => *l == label,
            _ => false,
        };
        if found {
            return Ok(i);
        }
        i += 1;
    }
    Err(AnalysisError::UnknownLabel(label))
}

/// The positions at which control may continue behind the instruction at
/// position `offset`. Fails if the instruction names a label that `code`
/// does not declare.
pub fn successors(code: &[Bytecode], offset: usize) -> (r: Result<Vec<usize>, AnalysisError>)
    requires
        offset < code@.len(),
    ensures
        match r {
            Ok(next) => missing_label(code@, offset as int) is None && flows_to(
                code@,
                offset as int,
                next@,
            ),
            Err(e) => missing_label(code@, offset as int) == Some(e->UnknownLabel_0) && e
                is UnknownLabel,
        },
{
    let mut next: Vec<usize> = Vec::new();
    match &code[offset] {
        Bytecode::Jump(label) => {
            match label_offset(code, *label) {
                Ok(i) => {
                    next.push(i);
                },
                Err(e) => {
                    return Err(e);
                },
            }
        },
        Bytecode::Branch(then_label, else_label, _) => {
            match label_offset(code, *then_label) {
                Ok(i) => {
                    next.push(i);
                },
                Err(e) => {
                    return Err(e);
                },
            }
            match label_offset(code, *else_label) {
                Ok(i) => {
                    next.push(i);
                },
                Err(e) => {
                    return Err(e);
                },
            }
        },
        Bytecode::Ret(_) => {},
        Bytecode::Abort(_) => {},
        _ => {
            next.push(offset + 1);
        },
    }
    Ok(next)
}

/// Merges the state `incoming` into the state kept at a point where paths
/// through the procedure meet: the first state to arrive is kept as it is,
/// each later one is joined into what is kept. Says whether what is kept
/// changed.
pub fn merge_into(slot: &mut Option<ReadWriteSetState>, incoming: &ReadWriteSetState) -> (changed:
    bool)
    requires
        incoming.wf(),
        match *old(slot) {
            Some(s) => s.wf(),
            None => true,
        },
    ensures
        *final(slot) is Some,
        final(slot)->Some_0.wf(),
        final(slot)->Some_0@ == match *old(slot) {
            Some(s) => s@.join(incoming@),
            None => incoming@,
        },
        changed == match *old(slot) {
            Some(s) => s@.join(incoming@) != s@,
            None => true,
        },
        accesses_grow(incoming@.accesses, final(slot)->Some_0@.accesses),
{
    let kept = slot.take();
    match kept {
        Some(mut state) => {
            let r = state.join(incoming);
            *slot = Some(state);
            match r {
                JoinResult::Changed => true,
                JoinResult::Unchanged => false,
            }
        },
        None => {
            *slot = Some(incoming.clone());
            true
        },
    }
}

} // verus!
