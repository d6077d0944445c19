use vstd::prelude::*;
use crate::errors::{GenError, GenErrorV};

verus! {

/// The payload shape of one variant of a tagged union: no payload,
/// positional fields, or named fields.  The shape decides only how the
/// generated match pattern is written, never whether a value matches.
#[derive(Clone, Copy, PartialEq, Eq, Structural, Debug)]
pub enum Shape {
    NoPayload,
    PositionalPayload,
    NamedPayload,
}

/// One attribute as attached to a variant: the namespace it is scoped
/// under, the raw directive text between its parentheses, and an opaque
/// source location handed in by the caller for diagnostics.
pub struct RawAttr {
    pub namespace: String,
    pub body: String,
    pub loc: usize,
}

/// The mathematical image of a `RawAttr`.
pub struct RawAttrV {
    pub namespace: Seq<char>,
    pub body: Seq<char>,
    pub loc: usize,
}

impl View for RawAttr {
    type V = RawAttrV;

    open spec fn view(&self) -> RawAttrV {
        RawAttrV { namespace: self.namespace@, body: self.body@, loc: self.loc }
    }
}

/// One variant of a tagged union: its identifier, its payload shape, and
/// the raw attributes written on it.
pub struct VariantDecl {
    pub ident: String,
    pub shape: Shape,
    pub attrs: Vec<RawAttr>,
}

/// The mathematical image of a `VariantDecl`.
pub struct VariantV {
    pub ident: Seq<char>,
    pub shape: Shape,
    pub attrs: Seq<RawAttrV>,
}

impl View for VariantDecl {
    type V = VariantV;

    open spec fn view(&self) -> VariantV {
        VariantV {
            ident: self.ident@,
            shape: self.shape,
            attrs: self.attrs@.map_values(|a: RawAttr| a@),
        }
    }
}

/// A tagged union: its name and its ordered variants.
pub struct UnionType {
    pub name: String,
    pub variants: Vec<VariantDecl>,
}

/// The mathematical image of a `UnionType`.
pub struct UnionV {
    pub name: Seq<char>,
    pub variants: Seq<VariantV>,
}

impl View for UnionType {
    type V = UnionV;

    open spec fn view(&self) -> UnionV {
        UnionV { name: self.name@, variants: self.variants@.map_values(|v: VariantDecl| v@) }
    }
}

/// What a declaration handed to the generator declares: a tagged union
/// with its variants, a record with fields, or a primitive.
pub enum TypeDeclKind {
    Union(Vec<VariantDecl>),
    Record,
    Primitive,
}

/// One type declaration: its name and what it declares.
pub struct TypeDecl {
    pub name: String,
    pub kind: TypeDeclKind,
}

/// The mathematical image of a `TypeDeclKind`.
pub enum TypeDeclKindV {
    Union(Seq<VariantV>),
    Record,
    Primitive,
}

/// The mathematical image of a `TypeDecl`.
pub struct TypeDeclV {
    pub name: Seq<char>,
    pub kind: TypeDeclKindV,
}

impl View for TypeDecl {
    type V = TypeDeclV;

    open spec fn view(&self) -> TypeDeclV {
        TypeDeclV {
            name: self.name@,
            kind: match &self.kind {
                TypeDeclKind::Union(vs) => (TypeDeclKindV::Union(
                    vs@.map_values(|v: VariantDecl| v@),
                )),
                TypeDeclKind::Record => TypeDeclKindV::Record,
                TypeDeclKind::Primitive => TypeDeclKindV::Primitive,
            },
        }
    }
}

/// The variant identifiers of a well-formed union are pairwise distinct;
/// the host language enforces this for any union it accepts.
pub open spec fn distinct_idents(vs: Seq<VariantV>) -> bool {
    forall|i: int, j: int| 0 <= i < j < vs.len() ==> vs[i].ident != vs[j].ident
}

/// The type inspector: accept a tagged union, reject anything else.
pub fn inspect_decl(decl: TypeDecl) -> (r: Result<UnionType, GenError>)
    ensures
        match r {
            Ok(u) => {
                &&& decl@.kind matches TypeDeclKindV::Union(vs) && u@.variants == vs
                &&& u@.name == decl@.name
            },
            Err(e) => {
                &&& !(decl@.kind is Union)
                &&& e@ == (GenErrorV::NotAUnion { name: decl@.name })
            },
        },
{
    match decl.kind {
        TypeDeclKind::Union(variants) => Ok(UnionType { name: decl.name, variants }),
        TypeDeclKind::Record => Err(GenError::NotAUnion { name: decl.name }),
        TypeDeclKind::Primitive => Err(GenError::NotAUnion { name: decl.name }),
    }
}

} // verus!
