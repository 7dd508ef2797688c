//! The transfer function of the analysis: what each instruction does to the
//! abstract state.

use crate::abs_addr::{AbsAddr, AddrView};
use crate::access::Access;
use crate::access_path::{Offset, OffsetView, PathView, RootView};
use crate::bytecode::{Bytecode, Constant, Operation};
use crate::cache::{declared, entry_of, FunctionEntry, SummaryCache};
use crate::error::{AnalysisError, ErrorView};
use crate::native::{call_native_function, native_call};
use crate::path_map::{caller_visible, compacted, root_has_children};
use crate::state::{
    accesses_grow, bind_root, is_bound, lemma_accesses_grow_transitive, local_value,
    resource_key, AddrMap, ReadWriteSetState, StateView,
};
use crate::summary::apply_summary_step;
use crate::types::{types_view, FunId, ModuleId, Type};
use vstd::prelude::*;

verus! {

/// The bindings after a return of the slots `rets`: in their order, each
/// return value is bound to what its slot holds, if the slot is bound.
pub open spec fn bind_return_values(locals: AddrMap, rets: Seq<usize>) -> AddrMap
    decreases rets.len(),
{
    if rets.len() == 0 {
        locals
    } else {
        let j = (rets.len() - 1) as usize;
        let before = bind_return_values(locals, rets.drop_last());
        if is_bound(before, rets.last()) {
            bind_root(before, RootView::Return(j), local_value(before, rets.last()))
        } else {
            before
        }
    }
}

/// The state after a call of the function `module::id`, or the failure of
/// the call. A function with a summary has its summary applied; one without
/// is native and has its model applied.
pub open spec fn function_call(
    s: StateView,
    cache: Seq<FunctionEntry>,
    module: ModuleId,
    id: FunId,
    types: Seq<Type>,
    args: Seq<usize>,
    rets: Seq<usize>,
) -> Result<StateView, ErrorView> {
    if !declared(cache, module, id) {
        Err(ErrorView::UnknownFunction(module, id))
    } else {
        let entry = entry_of(cache, module, id);
        match entry.summary {
            Some(summary) => apply_summary_step(s, summary@, args, types_view(types), rets),
            None => native_call(s, entry.module_name@, entry.name@, args, rets),
        }
    }
}

/// The number of operands and of destinations that the operation reads.
pub open spec fn arity(oper: Operation) -> (nat, nat) {
    match oper {
        Operation::BorrowField(..) | Operation::ReadRef | Operation::FreezeRef
        | Operation::BorrowLoc | Operation::BorrowGlobal(..) => (1, 1),
        Operation::WriteRef | Operation::MoveTo(..) | Operation::Eq | Operation::Neq => (2, 0),
        Operation::MoveFrom(..) | Operation::Exists(..) | Operation::Destroy => (1, 0),
        _ => (0, 0),
    }
}

/// The state after the call instruction `rets = oper(args)`, or the failure
/// of the instruction.
pub open spec fn call_step(
    s: StateView,
    rets: Seq<usize>,
    oper: Operation,
    args: Seq<usize>,
    cache: Seq<FunctionEntry>,
) -> Result<StateView, ErrorView> {
    if args.len() < arity(oper).0 || rets.len() < arity(oper).1 {
        Err(ErrorView::MalformedInstruction)
    } else {
        match oper {
            Operation::BorrowField(_, _, _, field) => Ok(
                if s.bound(args[0]) {
                    s.assign_offset(rets[0], args[0], OffsetView::Field(field), Access::Borrow)
                } else {
                    s
                },
            ),
            Operation::ReadRef => Ok(
                if s.bound(args[0]) {
                    s.record_access(args[0], Access::Read).copy_local(rets[0], args[0])
                } else {
                    s
                },
            ),
            Operation::WriteRef => if s.bound(args[0]) {
                let t = s.record_access(args[0], Access::Write);
                Ok(
                    if t.bound(args[1]) {
                        t.write_ref(args[0], args[1])
                    } else {
                        t
                    },
                )
            } else {
                Err(ErrorView::UnboundLocal(args[0]))
            },
            Operation::FreezeRef | Operation::BorrowLoc => Ok(
                if s.bound(args[0]) {
                    s.copy_local(rets[0], args[0])
                } else {
                    s
                },
            ),
            Operation::BorrowGlobal(mid, sid, types) => if s.bound(args[0]) {
                Ok(s.borrow_global(rets[0], args[0], resource_key(mid, sid, types@)))
            } else {
                Err(ErrorView::UnboundLocal(args[0]))
            },
            Operation::MoveFrom(mid, sid, types) => if s.bound(args[0]) {
                let key = resource_key(mid, sid, types@);
                Ok(s.add_global_access(args[0], key, Access::Write).remove_global(args[0], key))
            } else {
                Err(ErrorView::UnboundLocal(args[0]))
            },
            Operation::MoveTo(mid, sid, types) => if s.bound(args[1]) {
                Ok(s.add_global_access(args[1], resource_key(mid, sid, types@), Access::Write))
            } else {
                Err(ErrorView::UnboundLocal(args[1]))
            },
            Operation::Exists(mid, sid, types) => if s.bound(args[0]) {
                Ok(s.add_global_access(args[0], resource_key(mid, sid, types@), Access::Read))
            } else {
                Err(ErrorView::UnboundLocal(args[0]))
            },
            Operation::Function(mid, fid, types) => function_call(
                s,
                cache,
                mid,
                fid,
                types@,
                args,
                rets,
            ),
            Operation::Destroy => Ok(s.remove_local(args[0])),
            Operation::Eq | Operation::Neq => {
                let t = if s.bound(args[0]) {
                    s.record_access(args[0], Access::Read)
                } else {
                    s
                };
                Ok(
                    if t.bound(args[1]) {
                        t.record_access(args[1], Access::Read)
                    } else {
                        t
                    },
                )
            },
            Operation::GetField(..) | Operation::GetGlobal(..) | Operation::Havoc => Err(
                ErrorView::UnsupportedOperation,
            ),
            _ => Ok(s),
        }
    }
}

/// The state after the instruction `instr`, or the failure of the
/// instruction.
pub open spec fn step(s: StateView, instr: Bytecode, cache: Seq<FunctionEntry>) -> Result<
    StateView,
    ErrorView,
> {
    match instr {
        Bytecode::Call(rets, oper, args) => call_step(s, rets@, oper, args@, cache),
        Bytecode::Load(lhs, constant) => Ok(
            match constant {
                Constant::Address(a) => s.bind_local(lhs, set![AddrView::Constant(a)]),
                _ => s,
            },
        ),
        Bytecode::Assign(lhs, rhs) => Ok(
            if s.bound(rhs) {
                s.copy_local(lhs, rhs)
            } else {
                s.remove_local(lhs)
            },
        ),
        Bytecode::Ret(rets) => Ok(
            StateView { accesses: s.accesses, locals: bind_return_values(s.locals, rets@) },
        ),
        _ => Ok(s),
    }
}

/// The state after the instructions `code`, executed in their order, or the
/// failure of the first instruction that fails.
pub open spec fn run(s: StateView, code: Seq<Bytecode>, cache: Seq<FunctionEntry>) -> Result<
    StateView,
    ErrorView,
>
    decreases code.len(),
{
    if code.len() == 0 {
        Ok(s)
    } else {
        match run(s, code.drop_last(), cache) {
            Ok(t) => step(t, code.last(), cache),
            Err(e) => Err(e),
        }
    }
}

/// Whether no binding starts at a slot of the frame and something is bound
/// below every formal that a binding starts at.
pub open spec fn is_compact(locals: AddrMap) -> bool {
    forall|p: PathView| #[trigger] locals.contains_key(p) ==> caller_visible(locals, p)
}

/// The analysis of one procedure, with the summaries of the functions that
/// it may call.
pub struct ReadWriteSetAnalysis<'a> {
    pub cache: &'a SummaryCache,
}

/// Once an instruction has failed, the instructions behind it change
/// nothing about the failure.
pub proof fn lemma_run_fails(
    s: StateView,
    code: Seq<Bytecode>,
    cache: Seq<FunctionEntry>,
    i: int,
    n: int,
)
    requires
        0 <= i < n <= code.len(),
        run(s, code.take(i + 1), cache) is Err,
    ensures
        run(s, code.take(n), cache) == run(s, code.take(i + 1), cache),
    decreases n,
{
    if n > i + 1 {
        lemma_run_fails(s, code, cache, i, n - 1);
        assert(code.take(n).drop_last() =~= code.take(n - 1));
    }
}

/// What is kept of the bindings of a procedure is compact, and keeps
/// everything that is bound below a formal.
pub proof fn lemma_compacted_is_compact(locals: AddrMap)
    ensures
        is_compact(compacted(locals)),
        forall|p: PathView| #[trigger]
            locals.contains_key(p) && p.root is Formal && p.offsets.len() > 0 ==> compacted(
                locals,
            ).contains_key(p),
{
    let kept = compacted(locals);
    assert forall|p: PathView| #[trigger] kept.contains_key(p) implies caller_visible(kept, p) by {
        if p.root is Formal {
            let child = choose|q: PathView| #[trigger]
                locals.contains_key(q) && q.root == p.root && q.offsets.len() > 0;
            assert(caller_visible(locals, child));
            assert(kept.contains_key(child));
        }
    }
    assert forall|p: PathView| #[trigger]
        locals.contains_key(p) && p.root is Formal && p.offsets.len() > 0 implies kept.contains_key(
        p,
    ) by {
        assert(root_has_children(locals, p.root));
    }
}

impl<'a> ReadWriteSetAnalysis<'a> {
    /// The analysis of a procedure that may call the functions of `cache`.
    pub fn new(cache: &'a SummaryCache) -> (r: Self)
        ensures
            r.cache == cache,
    {
        ReadWriteSetAnalysis { cache }
    }

    /// Executes the instruction `instr` in `state`. A failure changes
    /// nothing. Whatever the instruction, no access recorded before it is
    /// lost or weakened.
    pub fn execute(&self, state: &mut ReadWriteSetState, instr: &Bytecode, _offset: u16) -> (r:
        Result<(), AnalysisError>)
        requires
            old(state).wf(),
            self.cache.wf(),
        ensures
            final(state).wf(),
            accesses_grow(old(state)@.accesses, final(state)@.accesses),
            match r {
                Ok(_) => step(old(state)@, *instr, self.cache.functions@) == Ok::<
                    StateView,
                    ErrorView,
                >(final(state)@),
                Err(e) => step(old(state)@, *instr, self.cache.functions@) == Err::<
                    StateView,
                    ErrorView,
                >(e@) && final(state)@ == old(state)@,
            },
    {
        match instr {
            Bytecode::Call(rets, oper, args) => self.execute_call(state, rets, oper, args),
            Bytecode::Load(lhs, constant) => {
                match constant {
                    Constant::Address(a) => {
                        state.bind_local(*lhs, AbsAddr::constant(*a));
                    },
                    _ => {},
                }
                Ok(())
            },
            Bytecode::Assign(lhs, rhs) => {
                if state.local_exists(*rhs) {
                    state.copy_local(*lhs, *rhs)?;
                } else {
                    state.remove_local(*lhs);
                }
                Ok(())
            },
            Bytecode::Ret(rets) => {
                let mut j: usize = 0;
                assert(rets@.take(0) =~= Seq::<usize>::empty());
                while j < rets.len()
                    invariant
                        j <= rets.len(),
                        state.wf(),
                        state@.accesses == old(state)@.accesses,
                        state@.locals == bind_return_values(
                            old(state)@.locals,
                            rets@.take(j as int),
                        ),
                    decreases rets.len() - j,
                {
                    proof {
                        assert(rets@.take(j + 1).drop_last() =~= rets@.take(j as int));
                    }
                    let value = match state.get_local(rets[j]) {
                        Some(v) => Some(v.clone()),
                        None => None,
                    };
                    match value {
                        Some(v) => {
                            state.bind_return(j, v);
                        },
                        None => {},
                    }
                    j += 1;
                }
                assert(rets@.take(rets.len() as int) =~= rets@);
                Ok(())
            },
            _ => Ok(()),
        }
    }

    /// Executes the instructions of a block in their order. Stops at the
    /// first instruction that fails, and then changes nothing.
    pub fn execute_block(&self, state: &mut ReadWriteSetState, code: &[Bytecode]) -> (r: Result<
        (),
        AnalysisError,
    >)
        requires
            old(state).wf(),
            self.cache.wf(),
        ensures
            final(state).wf(),
            accesses_grow(old(state)@.accesses, final(state)@.accesses),
            match r {
                Ok(_) => run(old(state)@, code@, self.cache.functions@) == Ok::<
                    StateView,
                    ErrorView,
                >(final(state)@),
                Err(e) => run(old(state)@, code@, self.cache.functions@) == Err::<
                    StateView,
                    ErrorView,
                >(e@) && final(state)@ == old(state)@,
            },
    {
        let mut work = state.clone();
        let mut i: usize = 0;
        assert(code@.take(0) =~= Seq::<Bytecode>::empty());
        while i < code.len()
            invariant
                i <= code.len(),
                work.wf(),
                state.wf(),
                self.cache.wf(),
                state@ == old(state)@,
                accesses_grow(old(state)@.accesses, work@.accesses),
                run(old(state)@, code@.take(i as int), self.cache.functions@) == Ok::<
                    StateView,
                    ErrorView,
                >(work@),
            decreases code.len() - i,
        {
            let ghost before = work@;
            proof {
                assert(code@.take(i + 1).drop_last() =~= code@.take(i as int));
            }
            match self.execute(&mut work, &code[i], 0) {
                Ok(_) => {},
                Err(e) => {
                    proof {
                        assert(code@.take(i + 1).last() == code@[i as int]);
                        assert(run(old(state)@, code@.take(i + 1), self.cache.functions@) == step(
                            before,
                            code@[i as int],
                            self.cache.functions@,
                        ));
                        assert(code@.take(code@.len() as int) =~= code@);
                        lemma_run_fails(
                            old(state)@,
                            code@,
                            self.cache.functions@,
                            i as int,
                            code@.len() as int,
                        );
                    }
                    return Err(e);
                },
            }
            proof {
                assert(code@.take(i + 1).last() == code@[i as int]);
                lemma_accesses_grow_transitive(
                    old(state)@.accesses,
                    before.accesses,
                    work@.accesses,
                );
            }
            i += 1;
        }
        assert(code@.take(code.len() as int) =~= code@);
        *state = work;
        Ok(())
    }

    /// Executes the call instruction `rets = oper(args)` in `state`.
    fn execute_call(
        &self,
        state: &mut ReadWriteSetState,
        rets: &Vec<usize>,
        oper: &Operation,
        args: &Vec<usize>,
    ) -> (r: Result<(), AnalysisError>)
        requires
            old(state).wf(),
            self.cache.wf(),
        ensures
            final(state).wf(),
            accesses_grow(old(state)@.accesses, final(state)@.accesses),
            match r {
                Ok(_) => call_step(old(state)@, rets@, *oper, args@, self.cache.functions@) == Ok::<
                    StateView,
                    ErrorView,
                >(final(state)@),
                Err(e) => call_step(old(state)@, rets@, *oper, args@, self.cache.functions@)
                    == Err::<StateView, ErrorView>(e@) && final(state)@ == old(state)@,
            },
    {
        let (need_args, need_rets): (usize, usize) = match oper {
            Operation::BorrowField(..)
            | Operation::ReadRef
            | Operation::FreezeRef
            | Operation::BorrowLoc
            | Operation::BorrowGlobal(..) => (1, 1),
            Operation::WriteRef | Operation::MoveTo(..) | Operation::Eq | Operation::Neq => (2, 0),
            Operation::MoveFrom(..) | Operation::Exists(..) | Operation::Destroy => (1, 0),
            _ => (0, 0),
        };
        if args.len() < need_args || rets.len() < need_rets {
            return Err(AnalysisError::MalformedInstruction);
        }
        let ghost s0 = state@;
        match oper {
            Operation::BorrowField(_, _, _, field) => {
                if state.local_exists(args[0]) {
                    state.assign_offset(
                        rets[0],
                        args[0],
                        Offset::field(*field),
                        Access::Borrow,
                    )?;
                }
                Ok(())
            },
            Operation::ReadRef => {
                if state.local_exists(args[0]) {
                    state.record_access(args[0], Access::Read)?;
                    state.copy_local(rets[0], args[0])?;
                }
                Ok(())
            },
            Operation::WriteRef => {
                state.record_access(args[0], Access::Write)?;
                state.write_ref(args[0], args[1])?;
                Ok(())
            },
            Operation::FreezeRef | Operation::BorrowLoc => {
                if state.local_exists(args[0]) {
                    state.copy_local(rets[0], args[0])?;
                }
                Ok(())
            },
            Operation::BorrowGlobal(mid, sid, types) => state.borrow_global(
                rets[0],
                args[0],
                mid,
                *sid,
                types.as_slice(),
            ),
            Operation::MoveFrom(mid, sid, types) => {
                state.add_global_access(args[0], mid, *sid, types.as_slice(), Access::Write)?;
                state.remove_global(args[0], mid, *sid, types.as_slice())?;
                Ok(())
            },
            Operation::MoveTo(mid, sid, types) => state.add_global_access(
                args[1],
                mid,
                *sid,
                types.as_slice(),
                Access::Write,
            ),
            Operation::Exists(mid, sid, types) => state.add_global_access(
                args[0],
                mid,
                *sid,
                types.as_slice(),
                Access::Read,
            ),
            Operation::Function(mid, fid, types) => {
                match self.cache.lookup(*mid, *fid) {
                    None => Err(AnalysisError::UnknownFunction(*mid, *fid)),
                    Some(entry) => match &entry.summary {
                        Some(summary) => state.apply_summary(
                            summary,
                            args.as_slice(),
                            types.as_slice(),
                            rets.as_slice(),
                        ),
                        None => call_native_function(
                            state,
                            entry.module_name.as_str(),
                            entry.name.as_str(),
                            args.as_slice(),
                            rets.as_slice(),
                        ),
                    },
                }
            },
            Operation::Destroy => {
                state.remove_local(args[0]);
                Ok(())
            },
            Operation::Eq | Operation::Neq => {
                if state.local_exists(args[0]) {
                    state.record_access(args[0], Access::Read)?;
                }
                let ghost s1 = state@;
                if state.local_exists(args[1]) {
                    state.record_access(args[1], Access::Read)?;
                }
                proof {
                    lemma_accesses_grow_transitive(s0.accesses, s1.accesses, state@.accesses);
                }
                Ok(())
            },
            Operation::GetField(..) | Operation::GetGlobal(..) | Operation::Havoc => Err(
                AnalysisError::UnsupportedOperation,
            ),
            _ => Ok(()),
        }
    }

    /// The summary of a procedure whose analysis ended in `state`: the
    /// accesses as they are, and of the bindings those that callers can see.
    /// Nothing that starts at a slot of the frame is kept, nor a formal
    /// below which nothing is bound.
    pub fn to_summary(&self, state: ReadWriteSetState) -> (r: ReadWriteSetState)
        requires
            state.wf(),
        ensures
            r.wf(),
            r@.accesses == state@.accesses,
            r@.locals == compacted(state@.locals),
            is_compact(r@.locals),
    {
        let ghost before = state@.locals;
        let mut state = state;
        state.locals.compact();
        proof {
            lemma_compacted_is_compact(before);
        }
        state
    }
}

} // verus!
