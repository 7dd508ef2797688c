//! Access paths: canonical names for cells of memory.
//!
//! An access path is a root followed by a sequence of offsets. The root names
//! a slot of the current frame, a formal of the procedure, a return value or a
//! resource in global storage; each offset steps into the value found there.

use crate::types::{
    clone_types, instantiate_all, instantiate_types, same_types, types_view, ModuleId, StructId,
    Type, TypeView,
};
use vstd::prelude::*;

verus! {

/// A struct type with its type arguments.
#[derive(Debug, PartialEq, Eq)]
pub struct StructKey {
    pub module: ModuleId,
    pub id: StructId,
    pub types: Vec<Type>,
}

/// The mathematical value of a [`StructKey`].
pub struct StructKeyView {
    pub module: ModuleId,
    pub id: StructId,
    pub types: Seq<TypeView>,
}

impl View for StructKey {
    type V = StructKeyView;

    open spec fn view(&self) -> StructKeyView {
        StructKeyView { module: self.module, id: self.id, types: types_view(self.types@) }
    }
}

impl StructKeyView {
    /// The key with its type parameters replaced by `params`.
    pub open spec fn instantiate(self, params: Seq<TypeView>) -> StructKeyView {
        StructKeyView {
            module: self.module,
            id: self.id,
            types: instantiate_types(self.types, params),
        }
    }
}

impl Clone for StructKey {
    fn clone(&self) -> (r: Self)
        ensures
            r@ == self@,
    {
        StructKey { module: self.module, id: self.id, types: clone_types(&self.types) }
    }
}

impl StructKey {
    pub fn new(module: ModuleId, id: StructId, types: Vec<Type>) -> (r: StructKey)
        ensures
            r@ == (StructKeyView { module, id, types: types_view(types@) }),
    {
        StructKey { module, id, types }
    }

    /// Whether two keys name the same instance of the same struct.
    pub fn same(&self, other: &StructKey) -> (r: bool)
        ensures
            r == (self@ == other@),
    {
        self.module == other.module && self.id == other.id && same_types(&self.types, &other.types)
    }

    /// Replaces the type parameters of the key by `params`.
    pub fn instantiate(&self, params: &[Type]) -> (r: StructKey)
        ensures
            r@ == self@.instantiate(types_view(params@)),
    {
        StructKey {
            module: self.module,
            id: self.id,
            types: instantiate_all(&self.types, params),
        }
    }
}

/// A resource in global storage: a struct instance published under a
/// statically known address.
#[derive(Debug, PartialEq, Eq)]
pub struct GlobalKey {
    pub address: u128,
    pub resource: StructKey,
}

/// The mathematical value of a [`GlobalKey`].
pub struct GlobalKeyView {
    pub address: u128,
    pub resource: StructKeyView,
}

impl View for GlobalKey {
    type V = GlobalKeyView;

    open spec fn view(&self) -> GlobalKeyView {
        GlobalKeyView { address: self.address, resource: self.resource@ }
    }
}

/// The root of an access path.
#[derive(Debug, PartialEq, Eq)]
pub enum Root {
    /// A resource in global storage.
    Global(GlobalKey),
    /// Whatever the formal with this index holds when the procedure is called.
    Formal(usize),
    /// A slot of the current frame.
    Local(usize),
    /// The return value with this index.
    Return(usize),
}

/// The mathematical value of a [`Root`].
pub enum RootView {
    Global(GlobalKeyView),
    Formal(usize),
    Local(usize),
    Return(usize),
}

impl View for Root {
    type V = RootView;

    open spec fn view(&self) -> RootView {
        match self {
            Root::Global(g) => RootView::Global(g@),
            Root::Formal(i) => RootView::Formal(*i),
            Root::Local(i) => RootView::Local(*i),
            Root::Return(i) => RootView::Return(*i),
        }
    }
}

impl RootView {
    /// The root with its type parameters replaced by `params`.
    pub open spec fn instantiate(self, params: Seq<TypeView>) -> RootView {
        match self {
            RootView::Global(g) => RootView::Global(
                GlobalKeyView { address: g.address, resource: g.resource.instantiate(params) },
            ),
            _ => self,
        }
    }
}

impl Clone for Root {
    fn clone(&self) -> (r: Self)
        ensures
            r@ == self@,
    {
        match self {
            Root::Global(g) => Root::Global(
                GlobalKey { address: g.address, resource: g.resource.clone() },
            ),
            Root::Formal(i) => Root::Formal(*i),
            Root::Local(i) => Root::Local(*i),
            Root::Return(i) => Root::Return(*i),
        }
    }
}

impl Root {
    /// Whether two roots are the same root.
    pub fn same(&self, other: &Root) -> (r: bool)
        ensures
            r == (self@ == other@),
    {
        match (self, other) {
            (Root::Global(g), Root::Global(h)) => g.address == h.address && g.resource.same(
                &h.resource,
            ),
            (Root::Formal(i), Root::Formal(j)) => *i == *j,
            (Root::Local(i), Root::Local(j)) => *i == *j,
            (Root::Return(i), Root::Return(j)) => *i == *j,
            _ => false,
        }
    }

    /// Replaces the type parameters of the root by `params`.
    pub fn instantiate(&self, params: &[Type]) -> (r: Root)
        ensures
            r@ == self@.instantiate(types_view(params@)),
    {
        match self {
            Root::Global(g) => Root::Global(
                GlobalKey { address: g.address, resource: g.resource.instantiate(params) },
            ),
            Root::Formal(i) => Root::Formal(*i),
            Root::Local(i) => Root::Local(*i),
            Root::Return(i) => Root::Return(*i),
        }
    }
}

/// One step from a value into a value that it holds or names.
#[derive(Debug, PartialEq, Eq)]
pub enum Offset {
    /// The field of a struct with this index.
    Field(usize),
    /// The resource of this type published under an address.
    Global(StructKey),
    /// Some element of a vector.
    VectorIndex,
    /// A statically known address held in place of a reference.
    AddressConstant,
}

/// The mathematical value of an [`Offset`].
pub enum OffsetView {
    Field(usize),
    Global(StructKeyView),
    VectorIndex,
    AddressConstant,
}

impl View for Offset {
    type V = OffsetView;

    open spec fn view(&self) -> OffsetView {
        match self {
            Offset::Field(f) => OffsetView::Field(*f),
            Offset::Global(k) => OffsetView::Global(k@),
            Offset::VectorIndex => OffsetView::VectorIndex,
            Offset::AddressConstant => OffsetView::AddressConstant,
        }
    }
}

impl OffsetView {
    /// The offset with its type parameters replaced by `params`.
    pub open spec fn instantiate(self, params: Seq<TypeView>) -> OffsetView {
        match self {
            OffsetView::Global(k) => OffsetView::Global(k.instantiate(params)),
            _ => self,
        }
    }
}

impl Clone for Offset {
    fn clone(&self) -> (r: Self)
        ensures
            r@ == self@,
    {
        match self {
            Offset::Field(f) => Offset::Field(*f),
            Offset::Global(k) => Offset::Global(k.clone()),
            Offset::VectorIndex => Offset::VectorIndex,
            Offset::AddressConstant => Offset::AddressConstant,
        }
    }
}

impl Offset {
    /// The offset of the field with index `index`.
    pub fn field(index: usize) -> (r: Offset)
        ensures
            r@ == OffsetView::Field(index),
    {
        Offset::Field(index)
    }

    /// The offset of the resource `module::id<types>`.
    pub fn global(module: ModuleId, id: StructId, types: Vec<Type>) -> (r: Offset)
        ensures
            r@ == OffsetView::Global(
                StructKeyView { module, id, types: types_view(types@) },
            ),
    {
        Offset::Global(StructKey { module, id, types })
    }

    /// Whether two offsets are the same offset.
    pub fn same(&self, other: &Offset) -> (r: bool)
        ensures
            r == (self@ == other@),
    {
        match (self, other) {
            (Offset::Field(f), Offset::Field(g)) => *f == *g,
            (Offset::Global(k), Offset::Global(l)) => k.same(l),
            (Offset::VectorIndex, Offset::VectorIndex) => true,
            (Offset::AddressConstant, Offset::AddressConstant) => true,
            _ => false,
        }
    }

    /// Replaces the type parameters of the offset by `params`.
    pub fn instantiate(&self, params: &[Type]) -> (r: Offset)
        ensures
            r@ == self@.instantiate(types_view(params@)),
    {
        match self {
            Offset::Field(f) => Offset::Field(*f),
            Offset::Global(k) => Offset::Global(k.instantiate(params)),
            Offset::VectorIndex => Offset::VectorIndex,
            Offset::AddressConstant => Offset::AddressConstant,
        }
    }
}

/// The values of a list of offsets.
pub open spec fn offsets_view(offsets: Seq<Offset>) -> Seq<OffsetView> {
    Seq::new(offsets.len(), |i: int| offsets[i]@)
}

/// Each offset of `offsets` with its type parameters replaced by `params`.
pub open spec fn instantiate_offsets(offsets: Seq<OffsetView>, params: Seq<TypeView>) -> Seq<
    OffsetView,
> {
    Seq::new(offsets.len(), |i: int| offsets[i].instantiate(params))
}

/// A root and the offsets that lead from it to a cell of memory.
#[derive(Debug, PartialEq, Eq)]
pub struct AccessPath {
    pub root: Root,
    pub offsets: Vec<Offset>,
}

/// The mathematical value of an [`AccessPath`].
pub struct PathView {
    pub root: RootView,
    pub offsets: Seq<OffsetView>,
}

impl View for AccessPath {
    type V = PathView;

    open spec fn view(&self) -> PathView {
        PathView { root: self.root@, offsets: offsets_view(self.offsets@) }
    }
}

impl PathView {
    /// The path that consists of `root` alone.
    pub open spec fn of_root(root: RootView) -> PathView {
        PathView { root, offsets: Seq::empty() }
    }

    /// The path of the slot `index` of the current frame.
    pub open spec fn local(index: usize) -> PathView {
        PathView::of_root(RootView::Local(index))
    }

    /// The path of the formal `index`.
    pub open spec fn formal(index: usize) -> PathView {
        PathView::of_root(RootView::Formal(index))
    }

    /// The path of the return value `index`.
    pub open spec fn ret(index: usize) -> PathView {
        PathView::of_root(RootView::Return(index))
    }

    /// The path of the resource `key` published under the address `address`.
    pub open spec fn resource(address: u128, key: StructKeyView) -> PathView {
        PathView::of_root(RootView::Global(GlobalKeyView { address, resource: key }))
    }

    /// The path extended by one offset.
    pub open spec fn push(self, offset: OffsetView) -> PathView {
        PathView { root: self.root, offsets: self.offsets.push(offset) }
    }

    /// The path extended by a sequence of offsets.
    pub open spec fn extend(self, offsets: Seq<OffsetView>) -> PathView {
        PathView { root: self.root, offsets: self.offsets + offsets }
    }

    /// The path with its type parameters replaced by `params`.
    pub open spec fn instantiate(self, params: Seq<TypeView>) -> PathView {
        PathView {
            root: self.root.instantiate(params),
            offsets: instantiate_offsets(self.offsets, params),
        }
    }

    /// Whether the path leads from its root into the value found there.
    pub open spec fn has_offsets(self) -> bool {
        self.offsets.len() > 0
    }
}

/// Copies a list of offsets.
pub fn clone_offsets(offsets: &Vec<Offset>) -> (r: Vec<Offset>)
    ensures
        offsets_view(r@) == offsets_view(offsets@),
{
    let mut out: Vec<Offset> = Vec::new();
    let mut i: usize = 0;
    while i < offsets.len()
        invariant
            i <= offsets.len(),
            out.len() == i,
            forall|j: int| 0 <= j < i ==> out@[j]@ == offsets@[j]@,
        decreases offsets.len() - i,
    {
        out.push(offsets[i].clone());
        i += 1;
    }
    assert(offsets_view(out@) =~= offsets_view(offsets@));
    out
}

impl Clone for AccessPath {
    fn clone(&self) -> (r: Self)
        ensures
            r@ == self@,
    {
        AccessPath { root: self.root.clone(), offsets: clone_offsets(&self.offsets) }
    }
}

impl AccessPath {
    /// The path from `root` along `offsets`.
    pub fn new(root: Root, offsets: Vec<Offset>) -> (r: AccessPath)
        ensures
            r@ == (PathView { root: root@, offsets: offsets_view(offsets@) }),
    {
        AccessPath { root, offsets }
    }

    /// The path that consists of `root` alone.
    pub fn new_root(root: Root) -> (r: AccessPath)
        ensures
            r@ == PathView::of_root(root@),
    {
        let r = AccessPath { root, offsets: Vec::new() };
        assert(r@.offsets =~= Seq::empty());
        r
    }

    /// The path of the slot `index` of the current frame.
    pub fn new_local(index: usize) -> (r: AccessPath)
        ensures
            r@ == PathView::local(index),
    {
        AccessPath::new_root(Root::Local(index))
    }

    /// The path of the formal `index`.
    pub fn new_formal(index: usize) -> (r: AccessPath)
        ensures
            r@ == PathView::formal(index),
    {
        AccessPath::new_root(Root::Formal(index))
    }

    /// The path of the return value `index`.
    pub fn new_return(index: usize) -> (r: AccessPath)
        ensures
            r@ == PathView::ret(index),
    {
        AccessPath::new_root(Root::Return(index))
    }

    /// The path of the resource `key` published under the address `address`.
    pub fn new_global_constant(address: u128, key: StructKey) -> (r: AccessPath)
        ensures
            r@ == PathView::resource(address, key@),
    {
        AccessPath::new_root(Root::Global(GlobalKey { address, resource: key }))
    }

    /// Whether two paths are the same path.
    pub fn same(&self, other: &AccessPath) -> (r: bool)
        ensures
            r == (self@ == other@),
    {
        if !self.root.same(&other.root) {
            return false;
        }
        if self.offsets.len() != other.offsets.len() {
            assert(self@.offsets.len() != other@.offsets.len());
            return false;
        }
        let mut i: usize = 0;
        while i < self.offsets.len()
            invariant
                i <= self.offsets.len(),
                self.offsets.len() == other.offsets.len(),
                forall|j: int| 0 <= j < i ==> self.offsets@[j]@ == other.offsets@[j]@,
            decreases self.offsets.len() - i,
        {
            if !self.offsets[i].same(&other.offsets[i]) {
                assert(self@.offsets[i as int] != other@.offsets[i as int]);
                return false;
            }
            i += 1;
        }
        assert(self@.offsets =~= other@.offsets);
        true
    }

    /// Extends the path by one offset.
    pub fn add_offset(&mut self, offset: Offset)
        ensures
            final(self)@ == old(self)@.push(offset@),
    {
        self.offsets.push(offset);
        assert(self@.offsets =~= old(self)@.offsets.push(offset@));
    }

    /// The path extended by a copy of each offset of `offsets` from `from` on.
    pub fn extended(&self, offsets: &Vec<Offset>, from: usize) -> (r: AccessPath)
        requires
            from <= offsets.len(),
        ensures
            r@ == self@.extend(offsets_view(offsets@).skip(from as int)),
    {
        let mut out = self.clone();
        let mut i: usize = from;
        while i < offsets.len()
            invariant
                from <= i <= offsets.len(),
                out@ == self@.extend(offsets_view(offsets@).subrange(from as int, i as int)),
            decreases offsets.len() - i,
        {
            out.add_offset(offsets[i].clone());
            assert(out@.offsets =~= self@.offsets + offsets_view(offsets@).subrange(
                from as int,
                i + 1,
            ));
            i += 1;
        }
        assert(offsets_view(offsets@).subrange(from as int, offsets.len() as int) =~= offsets_view(
            offsets@,
        ).skip(from as int));
        out
    }

    /// Replaces the type parameters of the path by `params`.
    pub fn instantiate(&self, params: &[Type]) -> (r: AccessPath)
        ensures
            r@ == self@.instantiate(types_view(params@)),
    {
        let mut out: Vec<Offset> = Vec::new();
        let mut i: usize = 0;
        while i < self.offsets.len()
            invariant
                i <= self.offsets.len(),
                out.len() == i,
                forall|j: int|
                    0 <= j < i ==> out@[j]@ == self.offsets@[j]@.instantiate(types_view(params@)),
            decreases self.offsets.len() - i,
        {
            out.push(self.offsets[i].instantiate(params));
            i += 1;
        }
        assert(offsets_view(out@) =~= instantiate_offsets(self@.offsets, types_view(params@)));
        AccessPath { root: self.root.instantiate(params), offsets: out }
    }
}

/// The set of paths that a list of paths holds.
pub open spec fn path_set(paths: Seq<AccessPath>) -> Set<PathView> {
    Set::new(|p: PathView| exists|i: int| 0 <= i < paths.len() && #[trigger] paths[i]@ == p)
}

/// A list of paths with one more path holds one more path.
pub proof fn lemma_path_set_push(paths: Seq<AccessPath>, p: AccessPath)
    ensures
        path_set(paths.push(p)) == path_set(paths).insert(p@),
{
    let longer = paths.push(p);
    assert forall|q: PathView| path_set(paths).insert(p@).contains(q) implies path_set(
        longer,
    ).contains(q) by {
        if q == p@ {
            assert(longer[paths.len() as int]@ == q);
        } else {
            let i = choose|i: int| 0 <= i < paths.len() && #[trigger] paths[i]@ == q;
            assert(longer[i]@ == q);
        }
    }
    assert forall|q: PathView| path_set(longer).contains(q) implies path_set(paths).insert(
        p@,
    ).contains(q) by {
        let i = choose|i: int| 0 <= i < longer.len() && #[trigger] longer[i]@ == q;
        if i < paths.len() {
            assert(paths[i]@ == q);
        }
    }
    assert(path_set(longer) =~= path_set(paths).insert(p@));
}

/// The paths of a list, taken one by one from the front.
pub proof fn lemma_path_set_take(paths: Seq<AccessPath>, i: int)
    requires
        0 <= i <= paths.len(),
    ensures
        i == 0 ==> path_set(paths.take(i)) == Set::<PathView>::empty(),
        i < paths.len() ==> path_set(paths.take(i + 1)) == path_set(paths.take(i)).insert(
            paths[i]@,
        ),
        i == paths.len() ==> path_set(paths.take(i)) == path_set(paths),
{
    if i == 0 {
        assert(path_set(paths.take(i)) =~= Set::<PathView>::empty());
    }
    if i < paths.len() {
        assert(paths.take(i + 1) =~= paths.take(i).push(paths[i]));
        lemma_path_set_push(paths.take(i), paths[i]);
    }
    if i == paths.len() {
        assert(paths.take(i) =~= paths);
    }
}

} // verus!
