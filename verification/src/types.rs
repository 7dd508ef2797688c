//! Identifiers and types of the analysed program.

use vstd::prelude::*;

verus! {

/// Identifies a module of the program.
#[derive(Debug, Clone, Copy, PartialEq, Eq, Structural)]
pub struct ModuleId(pub usize);

/// Identifies a struct within its module.
#[derive(Debug, Clone, Copy, PartialEq, Eq, Structural)]
pub struct StructId(pub usize);

/// Identifies a function within its module.
#[derive(Debug, Clone, Copy, PartialEq, Eq, Structural)]
pub struct FunId(pub usize);

/// A type without components.
#[derive(Debug, Clone, Copy, PartialEq, Eq, Structural)]
pub enum PrimitiveType {
    Bool,
    U8,
    U64,
    U128,
    Address,
    Signer,
}

/// A type of the program, possibly with free type parameters.
#[derive(Debug, PartialEq, Eq)]
pub enum Type {
    Primitive(PrimitiveType),
    Vector(Box<Type>),
    Struct(ModuleId, StructId, Vec<Type>),
    TypeParameter(u16),
}

/// The mathematical value of a [`Type`].
pub enum TypeView {
    Primitive(PrimitiveType),
    Vector(Box<TypeView>),
    Struct(ModuleId, StructId, Seq<TypeView>),
    TypeParameter(u16),
}

impl Type {
    /// The mathematical value of the type.
    pub open spec fn model(self) -> TypeView
        decreases self,
    {
        match self {
            Type::Primitive(p) => TypeView::Primitive(p),
            Type::Vector(elem) => TypeView::Vector(Box::new((*elem).model())),
            Type::Struct(m, s, args) => TypeView::Struct(
                m,
                s,
                Seq::new(
                    args@.len(),
                    |i: int|
                        if 0 <= i < args@.len() {
                            args@[i].model()
                        } else {
                            TypeView::TypeParameter(0)
                        },
                ),
            ),
            Type::TypeParameter(idx) => TypeView::TypeParameter(idx),
        }
    }
}

impl View for Type {
    type V = TypeView;

    open spec fn view(&self) -> TypeView {
        self.model()
    }
}

/// The values of a list of types.
pub open spec fn types_view(ts: Seq<Type>) -> Seq<TypeView> {
    Seq::new(ts.len(), |i: int| ts[i]@)
}

/// `t` with each type parameter replaced by the type that `params` holds at
/// its index. A parameter beyond the end of `params` stays as it is.
pub open spec fn instantiate_type(t: TypeView, params: Seq<TypeView>) -> TypeView
    decreases t,
{
    match t {
        TypeView::Primitive(_) => t,
        TypeView::Vector(elem) => TypeView::Vector(Box::new(instantiate_type(*elem, params))),
        TypeView::Struct(m, s, args) => TypeView::Struct(
            m,
            s,
            Seq::new(
                args.len(),
                |i: int|
                    if 0 <= i < args.len() {
                        instantiate_type(args[i], params)
                    } else {
                        TypeView::TypeParameter(0)
                    },
            ),
        ),
        TypeView::TypeParameter(idx) => if (idx as int) < params.len() {
            params[idx as int]
        } else {
            t
        },
    }
}

/// Each type of `ts` instantiated with `params`.
pub open spec fn instantiate_types(ts: Seq<TypeView>, params: Seq<TypeView>) -> Seq<TypeView> {
    Seq::new(ts.len(), |i: int| instantiate_type(ts[i], params))
}

/// Whether the type parameter `idx` occurs in `t`.
pub open spec fn mentions_parameter(t: TypeView, idx: u16) -> bool
    decreases t,
{
    match t {
        TypeView::Primitive(_) => false,
        TypeView::Vector(elem) => mentions_parameter(*elem, idx),
        TypeView::Struct(_, _, args) => exists|i: int|
            0 <= i < args.len() && mentions_parameter(#[trigger] args[i], idx),
        TypeView::TypeParameter(j) => j == idx,
    }
}

/// Whether the type parameter `idx` occurs in one type of `ts`.
pub open spec fn types_mention_parameter(ts: Seq<TypeView>, idx: u16) -> bool {
    exists|i: int| 0 <= i < ts.len() && mentions_parameter(#[trigger] ts[i], idx)
}

pub proof fn lemma_struct_view(m: ModuleId, s: StructId, args: Vec<Type>)
    ensures
        Type::Struct(m, s, args)@ == TypeView::Struct(m, s, types_view(args@)),
{
    assert(Type::Struct(m, s, args)@->Struct_2 =~= types_view(args@));
}

pub proof fn lemma_instantiate_struct(
    m: ModuleId,
    s: StructId,
    args: Seq<TypeView>,
    params: Seq<TypeView>,
)
    ensures
        instantiate_type(TypeView::Struct(m, s, args), params) == TypeView::Struct(
            m,
            s,
            instantiate_types(args, params),
        ),
{
    assert(instantiate_type(TypeView::Struct(m, s, args), params)->Struct_2 =~= instantiate_types(
        args,
        params,
    ));
}

impl Clone for Type {
    fn clone(&self) -> (r: Self)
        ensures
            r@ == self@,
        decreases self,
    {
        match self {
            Type::Primitive(p) => Type::Primitive(*p),
            Type::Vector(elem) => Type::Vector(Box::new((&**elem).clone())),
            Type::Struct(m, s, args) => {
                let out = clone_types(args);
                proof {
                    lemma_struct_view(*m, *s, *args);
                    lemma_struct_view(*m, *s, out);
                }
                Type::Struct(*m, *s, out)
            },
            Type::TypeParameter(idx) => Type::TypeParameter(*idx),
        }
    }
}

impl Type {
    /// Whether two types are the same type.
    pub fn same(&self, other: &Type) -> (r: bool)
        ensures
            r == (self@ == other@),
        decreases self,
    {
        match (self, other) {
            (Type::Primitive(p), Type::Primitive(q)) => *p == *q,
            (Type::Vector(a), Type::Vector(b)) => (&**a).same(&**b),
            (Type::Struct(m1, s1, a1), Type::Struct(m2, s2, a2)) => {
                proof {
                    lemma_struct_view(*m1, *s1, *a1);
                    lemma_struct_view(*m2, *s2, *a2);
                }
                *m1 == *m2 && *s1 == *s2 && same_types(a1, a2)
            },
            (Type::TypeParameter(i), Type::TypeParameter(j)) => *i == *j,
            _ => false,
        }
    }

    /// Replaces each type parameter by the type that `params` holds at its
    /// index. A parameter beyond the end of `params` stays as it is.
    pub fn instantiate(&self, params: &[Type]) -> (r: Type)
        ensures
            r@ == instantiate_type(self@, types_view(params@)),
        decreases self,
    {
        match self {
            Type::Primitive(p) => Type::Primitive(*p),
            Type::Vector(elem) => Type::Vector(Box::new((&**elem).instantiate(params))),
            Type::Struct(m, s, args) => {
                let out = instantiate_all(args, params);
                proof {
                    lemma_struct_view(*m, *s, *args);
                    lemma_struct_view(*m, *s, out);
                    lemma_instantiate_struct(*m, *s, types_view(args@), types_view(params@));
                }
                Type::Struct(*m, *s, out)
            },
            Type::TypeParameter(idx) => {
                if (*idx as usize) < params.len() {
                    params[*idx as usize].clone()
                } else {
                    Type::TypeParameter(*idx)
                }
            },
        }
    }
}

/// Instantiates each type of `ts` with `params`.
pub fn instantiate_all(ts: &Vec<Type>, params: &[Type]) -> (r: Vec<Type>)
    ensures
        types_view(r@) == instantiate_types(types_view(ts@), types_view(params@)),
    decreases ts,
{
    let mut out: Vec<Type> = Vec::new();
    let mut i: usize = 0;
    while i < ts.len()
        invariant
            i <= ts.len(),
            out.len() == i,
            forall|j: int|
                0 <= j < i ==> out@[j]@ == instantiate_type(ts@[j]@, types_view(params@)),
        decreases ts.len() - i,
    {
        out.push(ts[i].instantiate(params));
        i += 1;
    }
    assert(types_view(out@) =~= instantiate_types(types_view(ts@), types_view(params@)));
    out
}

/// Copies a list of types.
pub fn clone_types(ts: &Vec<Type>) -> (r: Vec<Type>)
    ensures
        types_view(r@) == types_view(ts@),
    decreases ts,
{
    let mut out: Vec<Type> = Vec::new();
    let mut i: usize = 0;
    while i < ts.len()
        invariant
            i <= ts.len(),
            out.len() == i,
            forall|j: int| 0 <= j < i ==> out@[j]@ == ts@[j]@,
        decreases ts.len() - i,
    {
        out.push(ts[i].clone());
        i += 1;
    }
    assert(types_view(out@) =~= types_view(ts@));
    out
}

/// Copies a slice of types into a list.
pub fn types_to_vec(ts: &[Type]) -> (r: Vec<Type>)
    ensures
        types_view(r@) == types_view(ts@),
{
    let mut out: Vec<Type> = Vec::new();
    let mut i: usize = 0;
    while i < ts.len()
        invariant
            i <= ts.len(),
            out.len() == i,
            forall|j: int| 0 <= j < i ==> out@[j]@ == ts@[j]@,
        decreases ts.len() - i,
    {
        out.push(ts[i].clone());
        i += 1;
    }
    assert(types_view(out@) =~= types_view(ts@));
    out
}

/// Whether two lists of types hold the same types in the same order.
pub fn same_types(a: &Vec<Type>, b: &Vec<Type>) -> (r: bool)
    ensures
        r == (types_view(a@) == types_view(b@)),
    decreases a,
{
    if a.len() != b.len() {
        assert(types_view(a@).len() != types_view(b@).len());
        return false;
    }
    let mut i: usize = 0;
    while i < a.len()
        invariant
            i <= a.len(),
            a.len() == b.len(),
            forall|j: int| 0 <= j < i ==> a@[j]@ == b@[j]@,
        decreases a.len() - i,
    {
        if !a[i].same(&b[i]) {
            assert(types_view(a@)[i as int] != types_view(b@)[i as int]);
            return false;
        }
        i += 1;
    }
    assert(types_view(a@) =~= types_view(b@));
    true
}

} // verus!
