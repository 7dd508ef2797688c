//! The functions of the program and the summaries computed so far.

use crate::state::ReadWriteSetState;
use crate::types::{FunId, ModuleId};
use vstd::prelude::*;

verus! {

/// A function of the program: its identity, its names, and its summary once
/// it has been analysed. A native function never gets a summary.
#[derive(Debug)]
pub struct FunctionEntry {
    pub module: ModuleId,
    pub id: FunId,
    pub module_name: String,
    pub name: String,
    pub summary: Option<ReadWriteSetState>,
}

/// Whether the entry `e` is the function `module::id`.
pub open spec fn is_function(e: FunctionEntry, module: ModuleId, id: FunId) -> bool {
    e.module == module && e.id == id
}

/// Whether the entry at position `i` is the first one for `module::id`.
pub open spec fn is_first(fs: Seq<FunctionEntry>, module: ModuleId, id: FunId, i: int) -> bool {
    &&& 0 <= i < fs.len()
    &&& is_function(fs[i], module, id)
    &&& forall|j: int| 0 <= j < i ==> !is_function(#[trigger] fs[j], module, id)
}

/// Whether the entries declare the function `module::id`.
pub open spec fn declared(fs: Seq<FunctionEntry>, module: ModuleId, id: FunId) -> bool {
    exists|i: int| is_first(fs, module, id, i)
}

/// The first entry for the function `module::id`.
pub open spec fn entry_of(fs: Seq<FunctionEntry>, module: ModuleId, id: FunId) -> FunctionEntry {
    fs[choose|i: int| is_first(fs, module, id, i)]
}

/// At most one entry is the first one for a function.
pub proof fn lemma_first_is_unique(
    fs: Seq<FunctionEntry>,
    module: ModuleId,
    id: FunId,
    i: int,
    j: int,
)
    requires
        is_first(fs, module, id, i),
        is_first(fs, module, id, j),
    ensures
        i == j,
{
    if i < j {
        assert(!is_function(fs[i], module, id));
    }
    if j < i {
        assert(!is_function(fs[j], module, id));
    }
}

/// The functions of the program, each with its summary once it is known.
/// Summaries are published by whoever schedules the analysis, callees before
/// their callers, and are only read here.
#[derive(Debug)]
pub struct SummaryCache {
    pub functions: Vec<FunctionEntry>,
}

impl SummaryCache {
    /// Every summary is well formed.
    pub open spec fn wf(&self) -> bool {
        forall|i: int|
            0 <= i < self.functions@.len() ==> match (#[trigger] self.functions@[i]).summary {
                Some(s) => s.wf(),
                None => true,
            }
    }

    /// A cache without functions.
    pub fn new() -> (r: SummaryCache)
        ensures
            r.wf(),
            r.functions@.len() == 0,
    {
        SummaryCache { functions: Vec::new() }
    }

    /// Whether every summary is well formed.
    pub fn is_well_formed(&self) -> (r: bool)
        ensures
            r == self.wf(),
    {
        let mut i: usize = 0;
        while i < self.functions.len()
            invariant
                i <= self.functions.len(),
                forall|j: int|
                    0 <= j < i ==> match (#[trigger] self.functions@[j]).summary {
                        Some(s) => s.wf(),
                        None => true,
                    },
            decreases self.functions.len() - i,
        {
            let ok = match &self.functions[i].summary {
                Some(s) => s.is_well_formed(),
                None => true,
            };
            if !ok {
                return false;
            }
            i += 1;
        }
        true
    }

    /// Adds a function behind those that the cache holds.
    pub fn add(&mut self, entry: FunctionEntry)
        requires
            old(self).wf(),
            match entry.summary {
                Some(s) => s.wf(),
                None => true,
            },
        ensures
            final(self).wf(),
            final(self).functions@ == old(self).functions@.push(entry),
    {
        self.functions.push(entry);
    }

    /// The first entry for the function `module::id`.
    pub fn lookup(&self, module: ModuleId, id: FunId) -> (r: Option<&FunctionEntry>)
        ensures
            match r {
                Some(e) => declared(self.functions@, module, id) && *e == entry_of(
                    self.functions@,
                    module,
                    id,
                ),
                None => !declared(self.functions@, module, id),
            },
    {
        let mut i: usize = 0;
        while i < self.functions.len()
            invariant
                i <= self.functions.len(),
                forall|j: int|
                    0 <= j < i ==> !is_function(#[trigger] self.functions@[j], module, id),
            decreases self.functions.len() - i,
        {
            if self.functions[i].module == module && self.functions[i].id == id {
                proof {
                    assert(is_first(self.functions@, module, id, i as int));
                    let k = choose|k: int| is_first(self.functions@, module, id, k);
                    lemma_first_is_unique(self.functions@, module, id, i as int, k);
                }
                return Some(&self.functions[i]);
            }
            i += 1;
        }
        None
    }

    /// The summary of the function `module::id`, if the cache holds one.
    pub fn get(&self, module: ModuleId, id: FunId) -> (r: Option<&ReadWriteSetState>)
        ensures
            match r {
                Some(s) => declared(self.functions@, module, id) && entry_of(
                    self.functions@,
                    module,
                    id,
                ).summary == Some(*s),
                None => !declared(self.functions@, module, id) || entry_of(
                    self.functions@,
                    module,
                    id,
                ).summary is None,
            },
    {
        match self.lookup(module, id) {
            Some(e) => e.summary.as_ref(),
            None => None,
        }
    }
}

} // verus!
