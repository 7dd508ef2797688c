//! The entry point of the analysis of one procedure.

use crate::state::{ReadWriteSetState, StateView};
use vstd::prelude::*;
use vstd::string::*;

verus! {

/// The analysis as a step of a pipeline that processes one procedure after
/// the other.
#[derive(Debug, PartialEq, Eq, Structural)]
pub struct ReadWriteSetProcessor();

impl ReadWriteSetProcessor {
    pub fn new() -> (r: Box<Self>)
        ensures
            *r == ReadWriteSetProcessor(),
    {
        Box::new(ReadWriteSetProcessor())
    }

    /// The name of the analysis.
    pub fn name(&self) -> (r: String)
        ensures
            r@ == "read_write_set_analysis"@,
    {
        "read_write_set_analysis".to_owned()
    }

    /// The state in which the analysis of a procedure with `param_count`
    /// formals starts: nothing is accessed, and the slot of each formal
    /// holds whatever that formal holds when the procedure is called.
    pub fn initial_state(&self, param_count: usize) -> (r: ReadWriteSetState)
        ensures
            r.wf(),
            r@ == StateView::initial(param_count),
    {
        ReadWriteSetState::initial(param_count)
    }
}

} // verus!
