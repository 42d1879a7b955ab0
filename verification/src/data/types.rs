//! The types the checker assigns to expressions. They are compared by
//! structure.
use vstd::prelude::*;

verus! {

/// The type of a function from `from` to `to`.
#[derive(Debug, Clone, Eq, PartialEq)]
pub struct FunctionType {
    pub from: Box<Type>,
    pub to: Box<Type>,
}

/// The type of a tuple: the types of its members, in order.
#[derive(Debug, Clone, Eq, PartialEq)]
pub struct ProductType {
    pub elements: Vec<Type>,
}

/// The type of an array of `length` elements of one type.
#[derive(Debug, Clone, Eq, PartialEq)]
pub struct ArrayType {
    pub value_type: Box<Type>,
    pub length: usize,
}

/// A type that is one of several.
#[derive(Debug, Clone, Eq, PartialEq)]
pub struct SumType {
    pub options: Vec<Type>,
}

/// A type without parts.
#[derive(Debug, Copy, Clone, Eq, PartialEq)]
pub struct AtomType {
    pub kind: AtomTypeKind,
}

/// The types without parts: the integers by width and sign, truth values
/// and texts.
#[derive(Debug, Copy, Clone, Eq, PartialEq)]
pub enum AtomTypeKind {
    I8,
    I64,
    UI8,
    UI64,
    Boolean,
    Text,
}

/// A type that is known by its name only.
#[derive(Debug, Clone, Eq, PartialEq)]
pub struct ExternType {
    pub name: String,
}

/// A type of the language.
#[derive(Debug, Eq, PartialEq)]
pub enum Type {
    FunctionType(FunctionType),
    ProductType(ProductType),
    ArrayType(ArrayType),
    SumType(SumType),
    AtomType(AtomType),
    ExternType(ExternType),
    UnitType,
    UnknownType,
}

/// A type as a mathematical value.
pub enum TypeView {
    Function { from: Box<TypeView>, to: Box<TypeView> },
    Product { elements: Seq<TypeView> },
    Array { element: Box<TypeView>, length: usize },
    Sum { options: Seq<TypeView> },
    Atom { kind: AtomTypeKind },
    Extern { name: Seq<char> },
    Unit,
    Unknown,
}

/// The mathematical value of a type.
pub open spec fn type_view(t: Type) -> TypeView
    decreases t,
{
    match t {
        Type::FunctionType(f) => TypeView::Function {
            from: Box::new(type_view(*f.from)),
            to: Box::new(type_view(*f.to)),
        },
        Type::ProductType(p) => TypeView::Product {
            elements: types_view(p.elements),
        },
        Type::ArrayType(a) => TypeView::Array {
            element: Box::new(type_view(*a.value_type)),
            length: a.length,
        },
        Type::SumType(s) => TypeView::Sum {
            options: types_view(s.options),
        },
        Type::AtomType(a) => TypeView::Atom { kind: a.kind },
        Type::ExternType(e) => TypeView::Extern { name: e.name@ },
        Type::UnitType => TypeView::Unit,
        Type::UnknownType => TypeView::Unknown,
    }
}

impl View for Type {
    type V = TypeView;

    open spec fn view(&self) -> TypeView {
        type_view(*self)
    }
}

/// The mathematical values of a list of types, in order.
pub open spec fn types_view(ts: Vec<Type>) -> Seq<TypeView>
    decreases ts,
{
    Seq::new(
        ts.len() as nat,
        |i: int|
            if 0 <= i < ts.len() {
                type_view(ts[i])
            } else {
                TypeView::Unknown
            },
    )
}

fn clone_types(ts: &Vec<Type>) -> (r: Vec<Type>)
    ensures
        types_view(r) == types_view(*ts),
    decreases ts,
{
    let mut r: Vec<Type> = Vec::new();
    let mut i: usize = 0;
    while i < ts.len()
        invariant
            i <= ts@.len(),
            r@.len() == i,
            forall|j: int| 0 <= j < i ==> r@[j]@ == ts@[j]@,
        decreases ts@.len() - i,
    {
        r.push(ts[i].clone());
        i += 1;
    }
    assert(types_view(r) =~= types_view(*ts));
    r
}

fn types_equal(a: &Vec<Type>, b: &Vec<Type>) -> (eq: bool)
    ensures
        eq == (types_view(*a) == types_view(*b)),
    decreases a,
{
    if a.len() != b.len() {
        assert(types_view(*a).len() != types_view(*b).len());
        return false;
    }
    let mut i: usize = 0;
    while i < a.len()
        invariant
            i <= a@.len(),
            a@.len() == b@.len(),
            forall|j: int| 0 <= j < i ==> a@[j]@ == b@[j]@,
        decreases a@.len() - i,
    {
        if !a[i].equals(&b[i]) {
            assert(types_view(*a)[i as int] != types_view(*b)[i as int]);
            return false;
        }
        i += 1;
    }
    assert(types_view(*a) =~= types_view(*b));
    true
}

impl Clone for Type {
    fn clone(&self) -> (r: Type)
        ensures
            r@ == self@,
        decreases self,
    {
        match self {
            Type::FunctionType(f) => Type::FunctionType(
                FunctionType { from: Box::new((*f.from).clone()), to: Box::new((*f.to).clone()) },
            ),
            Type::ProductType(p) => Type::ProductType(ProductType { elements: clone_types(&p.elements) }),
            Type::ArrayType(a) => Type::ArrayType(
                ArrayType { value_type: Box::new((*a.value_type).clone()), length: a.length },
            ),
            Type::SumType(s) => Type::SumType(SumType { options: clone_types(&s.options) }),
            Type::AtomType(a) => Type::AtomType(AtomType { kind: a.kind }),
            Type::ExternType(e) => Type::ExternType(ExternType { name: e.name.clone() }),
            Type::UnitType => Type::UnitType,
            Type::UnknownType => Type::UnknownType,
        }
    }
}

impl AtomTypeKind {
    pub fn equals(&self, other: &AtomTypeKind) -> (eq: bool)
        ensures
            eq == (*self == *other),
    {
        match (self, other) {
            (AtomTypeKind::I8, AtomTypeKind::I8) => true,
            (AtomTypeKind::I64, AtomTypeKind::I64) => true,
            (AtomTypeKind::UI8, AtomTypeKind::UI8) => true,
            (AtomTypeKind::UI64, AtomTypeKind::UI64) => true,
            (AtomTypeKind::Boolean, AtomTypeKind::Boolean) => true,
            (AtomTypeKind::Text, AtomTypeKind::Text) => true,
            _ => false,
        }
    }
}

impl Type {
    /// Structural equality: same shape, same atoms, same names, same lengths.
    pub fn equals(&self, other: &Type) -> (eq: bool)
        ensures
            eq == (self@ == other@),
        decreases self,
    {
        match (self, other) {
            (Type::FunctionType(f), Type::FunctionType(g)) => (*f.from).equals(&*g.from) && (*f.to).equals(
                &*g.to,
            ),
            (Type::ProductType(p), Type::ProductType(q)) => types_equal(&p.elements, &q.elements),
            (Type::ArrayType(a), Type::ArrayType(b)) => a.length == b.length && (*a.value_type).equals(
                &*b.value_type,
            ),
            (Type::SumType(s), Type::SumType(t)) => types_equal(&s.options, &t.options),
            (Type::AtomType(a), Type::AtomType(b)) => a.kind.equals(&b.kind),
            (Type::ExternType(e), Type::ExternType(f)) => e.name == f.name,
            (Type::UnitType, Type::UnitType) => true,
            (Type::UnknownType, Type::UnknownType) => true,
            _ => false,
        }
    }

    pub fn from_function(from: Type, to: Type) -> (t: Type)
        ensures
            t@ == (TypeView::Function { from: Box::new(from@), to: Box::new(to@) }),
    {
        Type::FunctionType(FunctionType { from: Box::new(from), to: Box::new(to) })
    }

    pub fn from_atom(kind: AtomTypeKind) -> (t: Type)
        ensures
            t@ == (TypeView::Atom { kind }),
    {
        Type::AtomType(AtomType { kind: kind })
    }

    pub fn from_extern_string(name: String) -> (t: Type)
        ensures
            t@ == (TypeView::Extern { name: name@ }),
    {
        Type::ExternType(ExternType { name: name })
    }

    pub fn from_extern_str(name: &str) -> (t: Type)
        ensures
            t@ == (TypeView::Extern { name: name@ }),
    {
        Type::ExternType(ExternType { name: name.to_owned() })
    }

    pub fn from_product(ts: Vec<Type>) -> (t: Type)
        ensures
            t@ == (TypeView::Product { elements: types_view(ts) }),
    {
        Type::ProductType(ProductType { elements: ts })
    }

    pub fn from_array_type(t: Type, l: usize) -> (r: Type)
        ensures
            r@ == (TypeView::Array { element: Box::new(t@), length: l }),
    {
        Type::ArrayType(ArrayType { value_type: Box::new(t), length: l })
    }
}

} // verus!
