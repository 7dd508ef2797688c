//! The abstract state of the analysis and its operations.
//!
//! A state pairs the accesses recorded so far with the addresses that slots
//! and memory cells may currently hold. Accesses are only ever joined into;
//! bindings are overwritten.

use crate::abs_addr::{
    addrs_of_paths, extend_footprints, footprints, global_paths, lemma_addrs_of_paths_insert,
    lemma_footprints_of_paths, AbsAddr, AddrView,
};
use crate::access::Access;
use crate::access_path::{
    lemma_path_set_take, path_set, AccessPath, Offset, OffsetView, PathView, Root, RootView,
    StructKey, StructKeyView,
};
use crate::domain::JoinResult;
use crate::error::AnalysisError;
use crate::path_map::{map_join, without_root, AccessPathMap};
use crate::types::{types_to_vec, types_view, ModuleId, StructId, Type};
use vstd::prelude::*;

verus! {

/// The accesses recorded at each path.
pub type AccessMap = Map<PathView, Access>;

/// The addresses bound to each path.
pub type AddrMap = Map<PathView, Set<AddrView>>;

/// Whether the slot `slot` of the frame is bound.
pub open spec fn is_bound(locals: AddrMap, slot: usize) -> bool {
    locals.contains_key(PathView::local(slot))
}

/// The addresses that the slot `slot` of the frame may hold.
pub open spec fn local_value(locals: AddrMap, slot: usize) -> Set<AddrView> {
    locals[PathView::local(slot)]
}

/// `locals` with everything below `root` forgotten and `root` bound to `v`.
pub open spec fn bind_root(locals: AddrMap, root: RootView, v: Set<AddrView>) -> AddrMap {
    without_root(locals, root).insert(PathView::of_root(root), v)
}

/// `accesses` with `kind` joined into what each path of `paths` holds.
pub open spec fn join_paths(accesses: AccessMap, paths: Set<PathView>, kind: Access) -> AccessMap {
    Map::new(
        |p: PathView| accesses.contains_key(p) || paths.contains(p),
        |p: PathView|
            if paths.contains(p) {
                Access::join_opt(accesses.get(p), kind)
            } else {
                accesses[p]
            },
    )
}

/// `locals` with each path of `paths` bound to `v`.
pub open spec fn bind_paths(locals: AddrMap, paths: Set<PathView>, v: Set<AddrView>) -> AddrMap {
    Map::new(
        |p: PathView| locals.contains_key(p) || paths.contains(p),
        |p: PathView|
            if paths.contains(p) {
                v
            } else {
                locals[p]
            },
    )
}

/// `locals` with each path of `paths` bound to the address that stands for
/// what the path itself holds.
pub open spec fn seed_paths(locals: AddrMap, paths: Set<PathView>) -> AddrMap {
    Map::new(
        |p: PathView| locals.contains_key(p) || paths.contains(p),
        |p: PathView|
            if paths.contains(p) {
                set![AddrView::Footprint(p)]
            } else {
                locals[p]
            },
    )
}

/// The bindings at the start of the analysis of a procedure with
/// `param_count` formals: the slot of each formal holds whatever that formal
/// holds when the procedure is called.
pub open spec fn initial_locals(param_count: usize) -> AddrMap {
    Map::new(
        |p: PathView| p.root is Local && p.root->Local_0 < param_count && p.offsets.len() == 0,
        |p: PathView| set![AddrView::Footprint(PathView::formal(p.root->Local_0))],
    )
}

/// The key of the resource `mid::sid<types>`.
pub open spec fn resource_key(mid: ModuleId, sid: StructId, types: Seq<Type>) -> StructKeyView {
    StructKeyView { module: mid, id: sid, types: types_view(types) }
}

/// Every access of `before` is still recorded in `after`, as it was or
/// stronger.
pub open spec fn accesses_grow(before: AccessMap, after: AccessMap) -> bool {
    forall|p: PathView| #[trigger]
        before.contains_key(p) ==> after.contains_key(p) && before[p].leq(after[p])
}

/// Joining an access into a set of paths removes and weakens nothing.
pub proof fn lemma_join_paths_grows(accesses: AccessMap, paths: Set<PathView>, kind: Access)
    ensures
        accesses_grow(accesses, join_paths(accesses, paths, kind)),
        forall|p: PathView| #[trigger]
            paths.contains(p) ==> join_paths(accesses, paths, kind).contains_key(p) && kind.leq(
                join_paths(accesses, paths, kind)[p],
            ),
{
}

/// Growth of accesses carries over from step to step.
pub proof fn lemma_accesses_grow_transitive(a: AccessMap, b: AccessMap, c: AccessMap)
    requires
        accesses_grow(a, b),
        accesses_grow(b, c),
    ensures
        accesses_grow(a, c),
{
    assert forall|p: PathView| #[trigger] a.contains_key(p) implies c.contains_key(p) && a[p].leq(
        c[p],
    ) by {
        assert(b.contains_key(p));
    }
}

/// Joins `kind` into what each path of `paths` holds in `accesses`.
pub fn join_access_paths(
    accesses: &mut AccessPathMap<Access>,
    paths: &Vec<AccessPath>,
    kind: Access,
)
    requires
        old(accesses).wf(),
    ensures
        final(accesses).wf(),
        final(accesses)@ == join_paths(old(accesses)@, path_set(paths@), kind),
{
    let mut i: usize = 0;
    proof {
        lemma_path_set_take(paths@, 0);
        assert(accesses@ =~= join_paths(old(accesses)@, Set::<PathView>::empty(), kind));
    }
    while i < paths.len()
        invariant
            i <= paths.len(),
            accesses.wf(),
            accesses@ == join_paths(old(accesses)@, path_set(paths@.take(i as int)), kind),
        decreases paths.len() - i,
    {
        let ghost seen = path_set(paths@.take(i as int));
        proof {
            lemma_path_set_take(paths@, i as int);
        }
        accesses.update_weak(paths[i].clone(), &kind);
        assert(accesses@ =~= join_paths(old(accesses)@, seen.insert(paths@[i as int]@), kind));
        i += 1;
    }
    proof {
        lemma_path_set_take(paths@, i as int);
    }
}

/// Binds each path of `paths` to a copy of `value` in `locals`.
pub fn bind_addr_paths(
    locals: &mut AccessPathMap<AbsAddr>,
    paths: &Vec<AccessPath>,
    value: &AbsAddr,
)
    requires
        old(locals).wf(),
    ensures
        final(locals).wf(),
        final(locals)@ == bind_paths(old(locals)@, path_set(paths@), value@),
{
    let mut i: usize = 0;
    proof {
        lemma_path_set_take(paths@, 0);
        assert(locals@ =~= bind_paths(old(locals)@, Set::<PathView>::empty(), value@));
    }
    while i < paths.len()
        invariant
            i <= paths.len(),
            locals.wf(),
            locals@ == bind_paths(old(locals)@, path_set(paths@.take(i as int)), value@),
        decreases paths.len() - i,
    {
        let ghost seen = path_set(paths@.take(i as int));
        proof {
            lemma_path_set_take(paths@, i as int);
        }
        locals.insert(paths[i].clone(), value.clone());
        assert(locals@ =~= bind_paths(old(locals)@, seen.insert(paths@[i as int]@), value@));
        i += 1;
    }
    proof {
        lemma_path_set_take(paths@, i as int);
    }
}

/// Binds each path of `paths` to the address that stands for what the path
/// itself holds.
pub fn seed_addr_paths(locals: &mut AccessPathMap<AbsAddr>, paths: &Vec<AccessPath>)
    requires
        old(locals).wf(),
    ensures
        final(locals).wf(),
        final(locals)@ == seed_paths(old(locals)@, path_set(paths@)),
{
    let mut i: usize = 0;
    proof {
        lemma_path_set_take(paths@, 0);
        assert(locals@ =~= seed_paths(old(locals)@, Set::<PathView>::empty()));
    }
    while i < paths.len()
        invariant
            i <= paths.len(),
            locals.wf(),
            locals@ == seed_paths(old(locals)@, path_set(paths@.take(i as int))),
        decreases paths.len() - i,
    {
        let ghost seen = path_set(paths@.take(i as int));
        proof {
            lemma_path_set_take(paths@, i as int);
        }
        locals.insert(paths[i].clone(), AbsAddr::footprint(paths[i].clone()));
        assert(locals@ =~= seed_paths(old(locals)@, seen.insert(paths@[i as int]@)));
        i += 1;
    }
    proof {
        lemma_path_set_take(paths@, i as int);
    }
}

/// Unbinds each path of `paths` in `locals`.
pub fn remove_addr_paths(locals: &mut AccessPathMap<AbsAddr>, paths: &Vec<AccessPath>)
    requires
        old(locals).wf(),
    ensures
        final(locals).wf(),
        final(locals)@ == old(locals)@.remove_keys(path_set(paths@)),
{
    let mut i: usize = 0;
    proof {
        lemma_path_set_take(paths@, 0);
        assert(locals@ =~= old(locals)@.remove_keys(Set::<PathView>::empty()));
    }
    while i < paths.len()
        invariant
            i <= paths.len(),
            locals.wf(),
            locals@ == old(locals)@.remove_keys(path_set(paths@.take(i as int))),
        decreases paths.len() - i,
    {
        let ghost seen = path_set(paths@.take(i as int));
        proof {
            lemma_path_set_take(paths@, i as int);
        }
        locals.remove(&paths[i]);
        assert(locals@ =~= old(locals)@.remove_keys(seen.insert(paths@[i as int]@)));
        i += 1;
    }
    proof {
        lemma_path_set_take(paths@, i as int);
    }
}

/// The addresses that stand for what the paths of a list hold.
pub fn addrs_from_paths(paths: &Vec<AccessPath>) -> (r: AbsAddr)
    ensures
        r@ == addrs_of_paths(path_set(paths@)),
{
    let mut out = AbsAddr::new();
    let mut i: usize = 0;
    proof {
        lemma_path_set_take(paths@, 0);
        assert(out@ =~= addrs_of_paths(Set::<PathView>::empty()));
    }
    while i < paths.len()
        invariant
            i <= paths.len(),
            out@ == addrs_of_paths(path_set(paths@.take(i as int))),
        decreases paths.len() - i,
    {
        proof {
            lemma_path_set_take(paths@, i as int);
            lemma_addrs_of_paths_insert(path_set(paths@.take(i as int)), paths@[i as int]@);
        }
        out.insert(crate::abs_addr::Addr::Footprint(paths[i].clone()));
        i += 1;
    }
    proof {
        lemma_path_set_take(paths@, i as int);
    }
    out
}

/// The accesses made so far by the procedure under analysis, and the
/// addresses that its slots and the cells it reached may hold.
#[derive(Debug)]
pub struct ReadWriteSetState {
    /// The memory accessed so far.
    pub accesses: AccessPathMap<Access>,
    /// The addresses that slots, return values and memory cells may hold.
    pub locals: AccessPathMap<AbsAddr>,
}

/// The mathematical value of a [`ReadWriteSetState`].
pub struct StateView {
    pub accesses: AccessMap,
    pub locals: AddrMap,
}

impl StateView {
    /// The state in which nothing is accessed and nothing is bound.
    pub open spec fn empty() -> StateView {
        StateView { accesses: Map::empty(), locals: Map::empty() }
    }

    /// The state at the start of the analysis of a procedure with
    /// `param_count` formals.
    pub open spec fn initial(param_count: usize) -> StateView {
        StateView { accesses: Map::empty(), locals: initial_locals(param_count) }
    }

    /// The join of two states: of their accesses and of their bindings,
    /// path by path.
    pub open spec fn join(self, other: StateView) -> StateView {
        StateView {
            accesses: map_join::<Access>(self.accesses, other.accesses),
            locals: map_join::<AbsAddr>(self.locals, other.locals),
        }
    }

    /// Whether the slot `slot` is bound.
    pub open spec fn bound(self, slot: usize) -> bool {
        is_bound(self.locals, slot)
    }

    /// The addresses that the slot `slot` may hold.
    pub open spec fn value(self, slot: usize) -> Set<AddrView> {
        local_value(self.locals, slot)
    }

    /// The state with the slot `slot` bound to `v`.
    pub open spec fn bind_local(self, slot: usize, v: Set<AddrView>) -> StateView {
        StateView {
            accesses: self.accesses,
            locals: bind_root(self.locals, RootView::Local(slot), v),
        }
    }

    /// The state with the return value `idx` bound to `v`.
    pub open spec fn bind_return(self, idx: usize, v: Set<AddrView>) -> StateView {
        StateView {
            accesses: self.accesses,
            locals: bind_root(self.locals, RootView::Return(idx), v),
        }
    }

    /// The state without the slot `slot` and what is bound below it.
    pub open spec fn remove_local(self, slot: usize) -> StateView {
        StateView {
            accesses: self.accesses,
            locals: without_root(self.locals, RootView::Local(slot)),
        }
    }

    /// The state with the slot `lhs` bound to what the slot `rhs` holds.
    pub open spec fn copy_local(self, lhs: usize, rhs: usize) -> StateView {
        self.bind_local(lhs, self.value(rhs))
    }

    /// The state with an access of kind `kind` joined into every path that
    /// the slot `slot` may hold.
    pub open spec fn record_access(self, slot: usize, kind: Access) -> StateView {
        StateView {
            accesses: join_paths(self.accesses, footprints(self.value(slot)), kind),
            locals: self.locals,
        }
    }

    /// The state with an access of kind `kind` joined into `offset` below
    /// every path that the slot `base` may hold.
    pub open spec fn access_offset(
        self,
        base: usize,
        offset: OffsetView,
        kind: Access,
    ) -> StateView {
        StateView {
            accesses: join_paths(self.accesses, extend_footprints(self.value(base), offset), kind),
            locals: self.locals,
        }
    }

    /// The state after the slot `ret` is assigned `offset` below what the
    /// slot `base` holds, with an access of kind `kind` to these paths.
    pub open spec fn assign_offset(
        self,
        ret: usize,
        base: usize,
        offset: OffsetView,
        kind: Access,
    ) -> StateView {
        let paths = extend_footprints(self.value(base), offset);
        StateView {
            accesses: join_paths(self.accesses, paths, kind),
            locals: bind_root(
                seed_paths(self.locals, paths),
                RootView::Local(ret),
                addrs_of_paths(paths),
            ),
        }
    }

    /// The state after what the slot `rhs` holds is stored at every path
    /// that the slot `lhs_ref` may hold.
    pub open spec fn write_ref(self, lhs_ref: usize, rhs: usize) -> StateView {
        StateView {
            accesses: self.accesses,
            locals: bind_paths(self.locals, footprints(self.value(lhs_ref)), self.value(rhs)),
        }
    }

    /// The state with an access of kind `kind` joined into the resource
    /// `key` under every address that the slot `slot` may hold.
    pub open spec fn add_global_access(
        self,
        slot: usize,
        key: StructKeyView,
        kind: Access,
    ) -> StateView {
        StateView {
            accesses: join_paths(self.accesses, global_paths(self.value(slot), key), kind),
            locals: self.locals,
        }
    }

    /// The state without what was bound to the resource `key` under every
    /// address that the slot `slot` may hold.
    pub open spec fn remove_global(self, slot: usize, key: StructKeyView) -> StateView {
        StateView {
            accesses: self.accesses,
            locals: self.locals.remove_keys(global_paths(self.value(slot), key)),
        }
    }

    /// The state after the slot `ret` borrows the resource `key` under
    /// every address that the slot `slot` may hold.
    pub open spec fn borrow_global(self, ret: usize, slot: usize, key: StructKeyView) -> StateView {
        let paths = global_paths(self.value(slot), key);
        StateView {
            accesses: join_paths(self.accesses, paths, Access::Borrow),
            locals: bind_root(
                self.locals.remove_keys(
                    extend_footprints(self.value(slot), OffsetView::Global(key)),
                ),
                RootView::Local(ret),
                addrs_of_paths(paths),
            ),
        }
    }
}

impl View for ReadWriteSetState {
    type V = StateView;

    open spec fn view(&self) -> StateView {
        StateView { accesses: self.accesses@, locals: self.locals@ }
    }
}

impl Clone for ReadWriteSetState {
    fn clone(&self) -> (r: Self)
        ensures
            self.wf() ==> r.wf(),
            r@ == self@,
    {
        ReadWriteSetState { accesses: self.accesses.clone(), locals: self.locals.clone() }
    }
}

impl Default for ReadWriteSetState {
    fn default() -> (r: Self)
        ensures
            r.wf(),
            r@ == StateView::empty(),
    {
        ReadWriteSetState { accesses: AccessPathMap::new(), locals: AccessPathMap::new() }
    }
}

impl ReadWriteSetState {
    /// Both maps are well formed.
    pub open spec fn wf(&self) -> bool {
        self.accesses.wf() && self.locals.wf()
    }

    /// Whether both maps are well formed.
    pub fn is_well_formed(&self) -> (r: bool)
        ensures
            r == self.wf(),
    {
        self.accesses.is_well_formed() && self.locals.is_well_formed()
    }

    /// The addresses bound to the slot `local_idx`.
    pub fn get_local(&self, local_idx: usize) -> (r: Option<&AbsAddr>)
        requires
            self.wf(),
        ensures
            match r {
                Some(v) => self@.bound(local_idx) && v@ == self@.value(local_idx),
                None => !self@.bound(local_idx),
            },
    {
        let path = AccessPath::new_local(local_idx);
        self.locals.get(&path)
    }

    /// Whether the slot `local_idx` is bound.
    pub fn local_exists(&self, local_idx: usize) -> (r: bool)
        ensures
            r == self@.bound(local_idx),
    {
        let path = AccessPath::new_local(local_idx);
        self.locals.contains(&path)
    }

    /// Binds the slot `local_idx` to `value` and forgets what was bound
    /// below it.
    pub fn bind_local(&mut self, local_idx: usize, value: AbsAddr)
        requires
            old(self).wf(),
        ensures
            final(self).wf(),
            final(self)@ == old(self)@.bind_local(local_idx, value@),
    {
        self.locals.remove_root(&Root::Local(local_idx));
        self.locals.insert(AccessPath::new_local(local_idx), value);
    }

    /// Binds the return value `ret_idx` to `value` and forgets what was bound
    /// below it.
    pub fn bind_return(&mut self, ret_idx: usize, value: AbsAddr)
        requires
            old(self).wf(),
        ensures
            final(self).wf(),
            final(self)@ == old(self)@.bind_return(ret_idx, value@),
    {
        self.locals.remove_root(&Root::Return(ret_idx));
        self.locals.insert(AccessPath::new_return(ret_idx), value);
    }

    /// Unbinds the slot `local_idx` and everything below it.
    pub fn remove_local(&mut self, local_idx: usize)
        requires
            old(self).wf(),
        ensures
            final(self).wf(),
            final(self)@ == old(self)@.remove_local(local_idx),
    {
        self.locals.remove_root(&Root::Local(local_idx));
    }

    /// Copies what the slot `rhs_index` holds into the slot `lhs_index`.
    /// Fails, and changes nothing, if `rhs_index` is not bound.
    pub fn copy_local(&mut self, lhs_index: usize, rhs_index: usize) -> (r: Result<
        (),
        AnalysisError,
    >)
        requires
            old(self).wf(),
        ensures
            final(self).wf(),
            match r {
                Ok(_) => old(self)@.bound(rhs_index) && final(self)@ == old(self)@.copy_local(
                    lhs_index,
                    rhs_index,
                ),
                Err(e) => {
                    &&& !old(self)@.bound(rhs_index)
                    &&& e == AnalysisError::UnboundLocal(rhs_index)
                    &&& final(self)@ == old(self)@
                },
            },
    {
        let value = match self.get_local(rhs_index) {
            Some(v) => v.clone(),
            None => {
                return Err(AnalysisError::UnboundLocal(rhs_index));
            },
        };
        self.bind_local(lhs_index, value);
        Ok(())
    }

    /// Records an access of kind `access` to every path that the slot
    /// `local_idx` may hold. Statically known addresses name no path and are
    /// passed over. Fails, and changes nothing, if the slot is not bound.
    pub fn record_access(&mut self, local_idx: usize, access: Access) -> (r: Result<
        (),
        AnalysisError,
    >)
        requires
            old(self).wf(),
        ensures
            final(self).wf(),
            accesses_grow(old(self)@.accesses, final(self)@.accesses),
            match r {
                Ok(_) => old(self)@.bound(local_idx) && final(self)@ == old(self)@.record_access(
                    local_idx,
                    access,
                ),
                Err(e) => {
                    &&& !old(self)@.bound(local_idx)
                    &&& e == AnalysisError::UnboundLocal(local_idx)
                    &&& final(self)@ == old(self)@
                },
            },
    {
        let paths = match self.get_local(local_idx) {
            Some(v) => v.footprint_paths(),
            None => {
                return Err(AnalysisError::UnboundLocal(local_idx));
            },
        };
        join_access_paths(&mut self.accesses, &paths, access);
        proof {
            lemma_join_paths_grows(old(self)@.accesses, path_set(paths@), access);
        }
        Ok(())
    }

    /// Records an access of kind `access_type` to `offset` below every path
    /// that the slot `base` may hold. Fails, and changes nothing, if `base`
    /// is not bound.
    pub fn access_offset(&mut self, base: usize, offset: Offset, access_type: Access) -> (r: Result<
        (),
        AnalysisError,
    >)
        requires
            old(self).wf(),
        ensures
            final(self).wf(),
            accesses_grow(old(self)@.accesses, final(self)@.accesses),
            match r {
                Ok(_) => old(self)@.bound(base) && final(self)@ == old(self)@.access_offset(
                    base,
                    offset@,
                    access_type,
                ),
                Err(e) => {
                    &&& !old(self)@.bound(base)
                    &&& e == AnalysisError::UnboundLocal(base)
                    &&& final(self)@ == old(self)@
                },
            },
    {
        let extended = match self.get_local(base) {
            Some(v) => v.add_offset(&offset),
            None => {
                return Err(AnalysisError::UnboundLocal(base));
            },
        };
        let paths = extended.footprint_paths();
        proof {
            lemma_footprints_of_paths(
                extend_footprints(local_value(old(self)@.locals, base), offset@),
            );
        }
        join_access_paths(&mut self.accesses, &paths, access_type);
        proof {
            lemma_join_paths_grows(old(self)@.accesses, path_set(paths@), access_type);
        }
        Ok(())
    }

    /// Binds the slot `ret` to `offset` below every path that the slot
    /// `base` may hold, records an access of kind `access_type` to each of
    /// these paths, and binds each of them to the address that stands for
    /// what it holds. Fails, and changes nothing, if `base` is not bound.
    pub fn assign_offset(
        &mut self,
        ret: usize,
        base: usize,
        offset: Offset,
        access_type: Access,
    ) -> (r: Result<(), AnalysisError>)
        requires
            old(self).wf(),
        ensures
            final(self).wf(),
            accesses_grow(old(self)@.accesses, final(self)@.accesses),
            match r {
                Ok(_) => old(self)@.bound(base) && final(self)@ == old(self)@.assign_offset(
                    ret,
                    base,
                    offset@,
                    access_type,
                ),
                Err(e) => {
                    &&& !old(self)@.bound(base)
                    &&& e == AnalysisError::UnboundLocal(base)
                    &&& final(self)@ == old(self)@
                },
            },
    {
        let extended = match self.get_local(base) {
            Some(v) => v.add_offset(&offset),
            None => {
                return Err(AnalysisError::UnboundLocal(base));
            },
        };
        let paths = extended.footprint_paths();
        proof {
            lemma_footprints_of_paths(
                extend_footprints(local_value(old(self)@.locals, base), offset@),
            );
        }
        seed_addr_paths(&mut self.locals, &paths);
        join_access_paths(&mut self.accesses, &paths, access_type);
        proof {
            lemma_join_paths_grows(old(self)@.accesses, path_set(paths@), access_type);
        }
        self.bind_local(ret, extended);
        Ok(())
    }

    /// Stores what the slot `rhs` holds at every path that the slot
    /// `lhs_ref` may hold. Does nothing if `rhs` is not bound. Fails, and
    /// changes nothing, if `rhs` is bound and `lhs_ref` is not.
    pub fn write_ref(&mut self, lhs_ref: usize, rhs: usize) -> (r: Result<(), AnalysisError>)
        requires
            old(self).wf(),
        ensures
            final(self).wf(),
            match r {
                Ok(_) => if old(self)@.bound(rhs) {
                    old(self)@.bound(lhs_ref) && final(self)@ == old(self)@.write_ref(lhs_ref, rhs)
                } else {
                    final(self)@ == old(self)@
                },
                Err(e) => {
                    &&& old(self)@.bound(rhs)
                    &&& !old(self)@.bound(lhs_ref)
                    &&& e == AnalysisError::UnboundLocal(lhs_ref)
                    &&& final(self)@ == old(self)@
                },
            },
    {
        let rhs_val = match self.get_local(rhs) {
            Some(v) => v.clone(),
            None => {
                return Ok(());
            },
        };
        let lhs_paths = match self.get_local(lhs_ref) {
            Some(v) => v.footprint_paths(),
            None => {
                return Err(AnalysisError::UnboundLocal(lhs_ref));
            },
        };
        bind_addr_paths(&mut self.locals, &lhs_paths, &rhs_val);
        Ok(())
    }

    /// The state at the start of the analysis of a procedure with
    /// `param_count` formals.
    pub fn initial(param_count: usize) -> (r: Self)
        ensures
            r.wf(),
            r@ == StateView::initial(param_count),
    {
        let mut state = ReadWriteSetState::default();
        let mut i: usize = 0;
        assert(state@.locals =~= initial_locals(0));
        while i < param_count
            invariant
                i <= param_count,
                state.wf(),
                state@.accesses == Map::<PathView, Access>::empty(),
                state@.locals == initial_locals(i),
            decreases param_count - i,
        {
            state.bind_local(i, AbsAddr::formal(i));
            proof {
                assert forall|p: PathView| #[trigger]
                    initial_locals((i + 1) as usize).contains_key(
                    p,
                ) implies state@.locals.contains_key(p) by {
                    if p.root->Local_0 == i {
                        assert(p.offsets =~= Seq::<OffsetView>::empty());
                        assert(p == PathView::local(i));
                    }
                }
                assert(state@.locals =~= initial_locals((i + 1) as usize));
            }
            i += 1;
        }
        state
    }

    /// The paths of the resource `mid::sid<types>` published under the
    /// addresses that the slot `addr_idx` may hold. Fails if the slot is not
    /// bound.
    pub fn get_global_paths(
        &self,
        addr_idx: usize,
        mid: &ModuleId,
        sid: StructId,
        types: &[Type],
    ) -> (r: Result<Vec<AccessPath>, AnalysisError>)
        requires
            self.wf(),
        ensures
            match r {
                Ok(paths) => self@.bound(addr_idx) && path_set(paths@) == global_paths(
                    self@.value(addr_idx),
                    resource_key(*mid, sid, types@),
                ),
                Err(e) => !self@.bound(addr_idx) && e == AnalysisError::UnboundLocal(addr_idx),
            },
    {
        match self.get_local(addr_idx) {
            Some(v) => {
                let key = StructKey::new(*mid, sid, types_to_vec(types));
                Ok(v.global_paths(&key))
            },
            None => Err(AnalysisError::UnboundLocal(addr_idx)),
        }
    }

    /// Erases what is bound to the resource `mid::sid<types>` published
    /// under the addresses that the slot `addr_idx` may hold. Fails, and
    /// changes nothing, if the slot is not bound.
    pub fn remove_global(
        &mut self,
        addr_idx: usize,
        mid: &ModuleId,
        sid: StructId,
        types: &[Type],
    ) -> (r: Result<(), AnalysisError>)
        requires
            old(self).wf(),
        ensures
            final(self).wf(),
            match r {
                Ok(_) => old(self)@.bound(addr_idx) && final(self)@ == old(self)@.remove_global(
                    addr_idx,
                    resource_key(*mid, sid, types@),
                ),
                Err(e) => {
                    &&& !old(self)@.bound(addr_idx)
                    &&& e == AnalysisError::UnboundLocal(addr_idx)
                    &&& final(self)@ == old(self)@
                },
            },
    {
        match self.get_global_paths(addr_idx, mid, sid, types) {
            Ok(paths) => {
                remove_addr_paths(&mut self.locals, &paths);
                Ok(())
            },
            Err(e) => Err(e),
        }
    }

    /// Records an access of kind `access` to the resource `mid::sid<types>`
    /// published under the addresses that the slot `local_idx` may hold.
    /// Fails, and changes nothing, if the slot is not bound.
    pub fn add_global_access(
        &mut self,
        local_idx: usize,
        mid: &ModuleId,
        sid: StructId,
        types: &[Type],
        access: Access,
    ) -> (r: Result<(), AnalysisError>)
        requires
            old(self).wf(),
        ensures
            final(self).wf(),
            accesses_grow(old(self)@.accesses, final(self)@.accesses),
            match r {
                Ok(_) => old(self)@.bound(local_idx) && final(self)@ == old(
                    self,
                )@.add_global_access(local_idx, resource_key(*mid, sid, types@), access),
                Err(e) => {
                    &&& !old(self)@.bound(local_idx)
                    &&& e == AnalysisError::UnboundLocal(local_idx)
                    &&& final(self)@ == old(self)@
                },
            },
    {
        match self.get_global_paths(local_idx, mid, sid, types) {
            Ok(paths) => {
                join_access_paths(&mut self.accesses, &paths, access);
                proof {
                    lemma_join_paths_grows(old(self)@.accesses, path_set(paths@), access);
                }
                Ok(())
            },
            Err(e) => Err(e),
        }
    }

    /// Borrows the resource `mid::sid<types>` published under the addresses
    /// that the slot `addr_idx` may hold: records a `Borrow` of each of its
    /// paths, erases what was bound to the paths reached through a
    /// reference, and binds the slot `ret` to the paths. Fails, and changes
    /// nothing, if `addr_idx` is not bound.
    pub fn borrow_global(
        &mut self,
        ret: usize,
        addr_idx: usize,
        mid: &ModuleId,
        sid: StructId,
        types: &[Type],
    ) -> (r: Result<(), AnalysisError>)
        requires
            old(self).wf(),
        ensures
            final(self).wf(),
            accesses_grow(old(self)@.accesses, final(self)@.accesses),
            match r {
                Ok(_) => old(self)@.bound(addr_idx) && final(self)@ == old(self)@.borrow_global(
                    ret,
                    addr_idx,
                    resource_key(*mid, sid, types@),
                ),
                Err(e) => {
                    &&& !old(self)@.bound(addr_idx)
                    &&& e == AnalysisError::UnboundLocal(addr_idx)
                    &&& final(self)@ == old(self)@
                },
            },
    {
        let (paths, reached) = match self.get_local(addr_idx) {
            Some(v) => {
                let key = StructKey::new(*mid, sid, types_to_vec(types));
                let paths = v.global_paths(&key);
                let reached = v.add_offset(&Offset::Global(key)).footprint_paths();
                (paths, reached)
            },
            None => {
                return Err(AnalysisError::UnboundLocal(addr_idx));
            },
        };
        proof {
            lemma_footprints_of_paths(
                extend_footprints(
                    local_value(old(self)@.locals, addr_idx),
                    OffsetView::Global(resource_key(*mid, sid, types@)),
                ),
            );
        }
        join_access_paths(&mut self.accesses, &paths, Access::Borrow);
        proof {
            lemma_join_paths_grows(old(self)@.accesses, path_set(paths@), Access::Borrow);
        }
        remove_addr_paths(&mut self.locals, &reached);
        let bound = addrs_from_paths(&paths);
        self.bind_local(ret, bound);
        Ok(())
    }

    /// Joins `other` into the state, and says whether the state changed.
    pub fn join(&mut self, other: &Self) -> (r: JoinResult)
        requires
            old(self).wf(),
            other.wf(),
        ensures
            final(self).wf(),
            final(self)@ == old(self)@.join(other@),
            (r == JoinResult::Unchanged) <==> final(self)@ == old(self)@,
            accesses_grow(old(self)@.accesses, final(self)@.accesses),
            accesses_grow(other@.accesses, final(self)@.accesses),
    {
        let a = self.accesses.join(&other.accesses);
        let l = self.locals.join(&other.locals);
        a.combine(l)
    }
}

} // verus!
