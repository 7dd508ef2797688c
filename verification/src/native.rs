//! Models of the native functions: what each does to the abstract state.

use crate::access::Access;
use crate::access_path::{Offset, OffsetView};
use crate::error::{AnalysisError, ErrorView};
use crate::state::{accesses_grow, lemma_accesses_grow_transitive, ReadWriteSetState, StateView};
use vstd::prelude::*;
use vstd::string::*;

verus! {

/// What a native function does to the abstract state.
#[derive(Debug, Clone, Copy, PartialEq, Eq, Structural)]
pub enum NativeModel {
    /// Reads what its first operand refers to.
    ReadArgument,
    /// Borrows its first operand and hands it back.
    BorrowIdentity,
    /// Reads its first operand and hands it back.
    ReadIdentity,
    /// Reads the length of a vector and borrows one of its elements.
    VectorBorrow,
    /// Reads the length of a vector, writes to it and hands back one of its
    /// elements.
    VectorPop,
    /// Reads the length of a vector and writes to its elements.
    VectorWrite,
    /// Touches no address.
    NoEffect,
}

/// The model of the native function `module::name`, if it has one.
pub open spec fn native_model_spec(module: Seq<char>, name: Seq<char>) -> Option<NativeModel> {
    if module == "BCS"@ && name == "to_bytes"@ {
        Some(NativeModel::ReadArgument)
    } else if module == "Signer"@ && name == "borrow_address"@ {
        Some(NativeModel::BorrowIdentity)
    } else if module == "DiemAccount"@ && name == "create_signer"@ {
        Some(NativeModel::ReadIdentity)
    } else if module == "Vector"@ {
        if name == "borrow_mut"@ || name == "borrow"@ {
            Some(NativeModel::VectorBorrow)
        } else if name == "length"@ || name == "is_empty"@ || name == "contains"@ {
            Some(NativeModel::ReadArgument)
        } else if name == "pop_back"@ {
            Some(NativeModel::VectorPop)
        } else if name == "push_back"@ || name == "append"@ || name == "swap"@ {
            Some(NativeModel::VectorWrite)
        } else if name == "empty"@ || name == "destroy_empty"@ {
            Some(NativeModel::NoEffect)
        } else {
            None
        }
    } else if module == "Event"@ && name == "write_to_event_store"@ {
        Some(NativeModel::NoEffect)
    } else if module == "Hash"@ && (name == "sha3_256"@ || name == "sha2_256"@) {
        Some(NativeModel::NoEffect)
    } else if module == "Signature"@ && (name == "ed25519_validate_pubkey"@ || name
        == "ed25519_verify"@) {
        Some(NativeModel::NoEffect)
    } else {
        None
    }
}

/// Whether the model binds the first destination of the call.
pub open spec fn binds_return(model: NativeModel) -> bool {
    model is BorrowIdentity || model is ReadIdentity || model is VectorBorrow || model is VectorPop
}

/// The state after a call of a native function with the model `model`, or
/// the failure of the call. A model that touches addresses needs an
/// operand, and a destination where it binds one; it does nothing where its
/// first operand is not bound.
pub open spec fn native_step(
    s: StateView,
    model: NativeModel,
    args: Seq<usize>,
    rets: Seq<usize>,
) -> Result<StateView, ErrorView> {
    if model is NoEffect {
        Ok(s)
    } else if args.len() == 0 || (binds_return(model) && rets.len() == 0) {
        Err(ErrorView::MalformedInstruction)
    } else if !s.bound(args[0]) {
        Ok(s)
    } else {
        Ok(
            match model {
                NativeModel::ReadArgument => s.record_access(args[0], Access::Read),
                NativeModel::BorrowIdentity => s.record_access(args[0], Access::Borrow).copy_local(
                    rets[0],
                    args[0],
                ),
                NativeModel::ReadIdentity => s.record_access(args[0], Access::Read).copy_local(
                    rets[0],
                    args[0],
                ),
                NativeModel::VectorBorrow => s.access_offset(
                    args[0],
                    OffsetView::VectorIndex,
                    Access::Read,
                ).assign_offset(rets[0], args[0], OffsetView::VectorIndex, Access::Borrow),
                NativeModel::VectorPop => s.access_offset(
                    args[0],
                    OffsetView::VectorIndex,
                    Access::Read,
                ).access_offset(args[0], OffsetView::VectorIndex, Access::Write).assign_offset(
                    rets[0],
                    args[0],
                    OffsetView::VectorIndex,
                    Access::Read,
                ),
                NativeModel::VectorWrite => s.access_offset(
                    args[0],
                    OffsetView::VectorIndex,
                    Access::Read,
                ).access_offset(args[0], OffsetView::VectorIndex, Access::Write),
                NativeModel::NoEffect => s,
            },
        )
    }
}

/// The state after a call of the native function `module::name`, or the
/// failure of the call. A function without a model fails the analysis.
pub open spec fn native_call(
    s: StateView,
    module: Seq<char>,
    name: Seq<char>,
    args: Seq<usize>,
    rets: Seq<usize>,
) -> Result<StateView, ErrorView> {
    match native_model_spec(module, name) {
        Some(model) => native_step(s, model, args, rets),
        None => Err(ErrorView::UnsupportedNativeFunction { module, function: name }),
    }
}

/// Whether two strings hold the same text.
pub fn same_text(a: &str, b: &str) -> (r: bool)
    ensures
        r == (a@ == b@),
{
    let n = a.unicode_len();
    if n != b.unicode_len() {
        return false;
    }
    let mut i: usize = 0;
    while i < n
        invariant
            i <= n,
            n == a@.len(),
            n == b@.len(),
            forall|j: int| 0 <= j < i ==> a@[j] == b@[j],
        decreases n - i,
    {
        if a.get_char(i) != b.get_char(i) {
            return false;
        }
        i += 1;
    }
    assert(a@ =~= b@);
    true
}

/// The model of the native function `module::name`, if it has one.
pub fn native_model(module: &str, name: &str) -> (r: Option<NativeModel>)
    ensures
        r == native_model_spec(module@, name@),
{
    if same_text(module, "BCS") && same_text(name, "to_bytes") {
        Some(NativeModel::ReadArgument)
    } else if same_text(module, "Signer") && same_text(name, "borrow_address") {
        Some(NativeModel::BorrowIdentity)
    } else if same_text(module, "DiemAccount") && same_text(name, "create_signer") {
        Some(NativeModel::ReadIdentity)
    } else if same_text(module, "Vector") {
        if same_text(name, "borrow_mut") || same_text(name, "borrow") {
            Some(NativeModel::VectorBorrow)
        } else if same_text(name, "length") || same_text(name, "is_empty") || same_text(
            name,
            "contains",
        ) {
            Some(NativeModel::ReadArgument)
        } else if same_text(name, "pop_back") {
            Some(NativeModel::VectorPop)
        } else if same_text(name, "push_back") || same_text(name, "append") || same_text(
            name,
            "swap",
        ) {
            Some(NativeModel::VectorWrite)
        } else if same_text(name, "empty") || same_text(name, "destroy_empty") {
            Some(NativeModel::NoEffect)
        } else {
            None
        }
    } else if same_text(module, "Event") && same_text(name, "write_to_event_store") {
        Some(NativeModel::NoEffect)
    } else if same_text(module, "Hash") && (same_text(name, "sha3_256") || same_text(
        name,
        "sha2_256",
    )) {
        Some(NativeModel::NoEffect)
    } else if same_text(module, "Signature") && (same_text(name, "ed25519_validate_pubkey")
        || same_text(name, "ed25519_verify")) {
        Some(NativeModel::NoEffect)
    } else {
        None
    }
}

/// Applies the model `model` to the state at a call with the operands
/// `args` and the destinations `rets`. A failure changes nothing.
pub fn apply_native_model(
    state: &mut ReadWriteSetState,
    model: NativeModel,
    args: &[usize],
    rets: &[usize],
) -> (r: Result<(), AnalysisError>)
    requires
        old(state).wf(),
    ensures
        final(state).wf(),
        accesses_grow(old(state)@.accesses, final(state)@.accesses),
        match r {
            Ok(_) => native_step(old(state)@, model, args@, rets@) == Ok::<StateView, ErrorView>(
                final(state)@,
            ),
            Err(e) => native_step(old(state)@, model, args@, rets@) == Err::<StateView, ErrorView>(
                e@,
            ) && final(state)@ == old(state)@,
        },
{
    let needs_ret = match model {
        NativeModel::BorrowIdentity
        | NativeModel::ReadIdentity
        | NativeModel::VectorBorrow
        | NativeModel::VectorPop => true,
        _ => false,
    };
    match model {
        NativeModel::NoEffect => {
            return Ok(());
        },
        _ => {},
    }
    if args.len() == 0 || (needs_ret && rets.len() == 0) {
        return Err(AnalysisError::MalformedInstruction);
    }
    let arg = args[0];
    if !state.local_exists(arg) {
        return Ok(());
    }
    let ghost s0 = state@;
    match model {
        NativeModel::ReadArgument => {
            state.record_access(arg, Access::Read)?;
        },
        NativeModel::BorrowIdentity => {
            state.record_access(arg, Access::Borrow)?;
            state.copy_local(rets[0], arg)?;
        },
        NativeModel::ReadIdentity => {
            state.record_access(arg, Access::Read)?;
            state.copy_local(rets[0], arg)?;
        },
        NativeModel::VectorBorrow => {
            state.access_offset(arg, Offset::VectorIndex, Access::Read)?;
            let ghost s1 = state@;
            state.assign_offset(rets[0], arg, Offset::VectorIndex, Access::Borrow)?;
            proof {
                lemma_accesses_grow_transitive(s0.accesses, s1.accesses, state@.accesses);
            }
        },
        NativeModel::VectorPop => {
            state.access_offset(arg, Offset::VectorIndex, Access::Read)?;
            let ghost s1 = state@;
            state.access_offset(arg, Offset::VectorIndex, Access::Write)?;
            let ghost s2 = state@;
            state.assign_offset(rets[0], arg, Offset::VectorIndex, Access::Read)?;
            proof {
                lemma_accesses_grow_transitive(s0.accesses, s1.accesses, s2.accesses);
                lemma_accesses_grow_transitive(s0.accesses, s2.accesses, state@.accesses);
            }
        },
        NativeModel::VectorWrite => {
            state.access_offset(arg, Offset::VectorIndex, Access::Read)?;
            let ghost s1 = state@;
            state.access_offset(arg, Offset::VectorIndex, Access::Write)?;
            proof {
                lemma_accesses_grow_transitive(s0.accesses, s1.accesses, state@.accesses);
            }
        },
        NativeModel::NoEffect => {},
    }
    Ok(())
}

/// Executes a call of the native function `module_name::fun_name` with the
/// operands `args` and the destinations `rets`. A function without a model
/// fails the analysis with its name; a failure changes nothing.
pub fn call_native_function(
    state: &mut ReadWriteSetState,
    module_name: &str,
    fun_name: &str,
    args: &[usize],
    rets: &[usize],
) -> (r: Result<(), AnalysisError>)
    requires
        old(state).wf(),
    ensures
        final(state).wf(),
        accesses_grow(old(state)@.accesses, final(state)@.accesses),
        match r {
            Ok(_) => native_call(old(state)@, module_name@, fun_name@, args@, rets@) == Ok::<
                StateView,
                ErrorView,
            >(final(state)@),
            Err(e) => native_call(old(state)@, module_name@, fun_name@, args@, rets@) == Err::<
                StateView,
                ErrorView,
            >(e@) && final(state)@ == old(state)@,
        },
{
    match native_model(module_name, fun_name) {
        Some(model) => apply_native_model(state, model, args, rets),
        None => Err(
            AnalysisError::UnsupportedNativeFunction {
                module: module_name.to_owned(),
                function: fun_name.to_owned(),
            },
        ),
    }
}

} // verus!
