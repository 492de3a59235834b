//! The static program representation the extraction works on: origins, nodes,
//! places, types, declarations, statements, expressions and basic blocks,
//! together with the recursive origin collection over types.

use vstd::prelude::*;
use crate::seqs::{strv, lemma_strv_push, lemma_add_assoc, lemma_add_empty, lemma_skip_step};

verus! {

/// A named lifetime/region variable, as it appears in reference types and
/// borrow expressions. Identity is by name.
pub struct Origin(pub String);

impl View for Origin {
    type V = Seq<char>;

    open spec fn view(&self) -> Seq<char> {
        self.0@
    }
}

impl Clone for Origin {
    fn clone(&self) -> (r: Self)
        ensures
            r == *self,
    {
        Origin(self.0.clone())
    }
}

/// A point in the control-flow graph, under its rendered name.
pub struct Node(pub String);

impl View for Node {
    type V = Seq<char>;

    open spec fn view(&self) -> Seq<char> {
        self.0@
    }
}

impl Clone for Node {
    fn clone(&self) -> (r: Self)
        ensures
            r == *self,
    {
        Node(self.0.clone())
    }
}

/// A location in the CFG by index: the block within the program and the
/// statement within that block.
#[derive(Clone, Copy)]
pub struct Location {
    pub block_idx: usize,
    pub statement_idx: usize,
}

/// A source span, in character offsets into the input text. The statement's
/// text is the range `start .. end - 1`, leaving out the trailing terminator.
#[derive(Clone, Copy)]
pub struct Span {
    pub start: usize,
    pub end: usize,
}

/// An access path: a root variable (optionally dereferenced) plus a chain of
/// field names. Equality is structural; places key the loan index.
pub struct Place {
    pub base: String,
    pub is_deref: bool,
    pub fields: Vec<String>,
}

/// The mathematical value of a [`Place`].
#[verifier::ext_equal]
pub struct PlaceV {
    pub base: Seq<char>,
    pub is_deref: bool,
    pub fields: Seq<Seq<char>>,
}

impl View for Place {
    type V = PlaceV;

    open spec fn view(&self) -> PlaceV {
        PlaceV { base: self.base@, is_deref: self.is_deref, fields: strv(self.fields@) }
    }
}

impl Place {
    /// If the place's base is dereferenced, the variable name it refers to.
    pub fn deref_base(&self) -> (r: Option<&String>)
        ensures
            self.is_deref ==> r == Some(&self.base),
            !self.is_deref ==> r is None,
    {
        if self.is_deref {
            Some(&self.base)
        } else {
            None
        }
    }

    /// Structural equality of places, at the level of their views.
    pub fn same_place(&self, other: &Place) -> (r: bool)
        ensures
            r == (self@ == other@),
    {
        if self.is_deref != other.is_deref {
            proof {
                assert(self@ != other@);
            }
            return false;
        }
        if !(self.base == other.base) {
            proof {
                assert(self@.base != other@.base);
            }
            return false;
        }
        if self.fields.len() != other.fields.len() {
            proof {
                assert(self@.fields.len() != other@.fields.len());
            }
            return false;
        }
        let n = self.fields.len();
        let mut i: usize = 0;
        while i < n
            invariant
                n == self.fields.len() == other.fields.len(),
                i <= n,
                forall|j: int| 0 <= j < i ==> self.fields@[j]@ == other.fields@[j]@,
            decreases n - i,
        {
            if !(self.fields[i] == other.fields[i]) {
                proof {
                    assert(self@.fields[i as int] != other@.fields[i as int]);
                }
                return false;
            }
            i += 1;
        }
        proof {
            assert(self@.fields =~= other@.fields);
            assert(self@ =~= other@);
        }
        true
    }

    /// A value-equal copy of the place.
    pub fn duplicate(&self) -> (r: Place)
        ensures
            r@ == self@,
    {
        let mut fields: Vec<String> = Vec::new();
        let mut i: usize = 0;
        while i < self.fields.len()
            invariant
                i <= self.fields.len(),
                strv(fields@) == strv(self.fields@.take(i as int)),
            decreases self.fields.len() - i,
        {
            fields.push(self.fields[i].clone());
            proof {
                broadcast use lemma_strv_push;

                assert(self.fields@.take(i + 1) =~= self.fields@.take(i as int).push(
                    self.fields@[i as int],
                ));
                assert(strv(self.fields@.take(i as int)) + seq![self.fields@[i as int]@]
                    =~= strv(self.fields@.take(i + 1)));
            }
            i += 1;
        }
        proof {
            assert(self.fields@.take(self.fields@.len() as int) =~= self.fields@);
        }
        let r = Place { base: self.base.clone(), is_deref: self.is_deref, fields };
        proof {
            assert(r@ =~= self@);
        }
        r
    }
}

/// A generic slot of a struct declaration: either an origin slot or a type
/// slot, each identified by name.
pub enum GenericDecl {
    Origin(String),
    Ty(String),
}

/// A type: the closed set of shapes the extraction understands.
pub enum Ty {
    I32,
    Unit,
    Ref { origin: Origin, ty: Box<Ty> },
    RefMut { origin: Origin, ty: Box<Ty> },
    Struct { name: String, parameters: Vec<Parameter> },
}

/// An actual generic argument of a struct type: an origin or a nested type.
pub enum Parameter {
    Origin(Origin),
    Ty(Ty),
}

/// The origins embedded in a type, root to leaf, left to right through
/// parameter lists.
pub open spec fn ty_origins(t: Ty) -> Seq<Seq<char>>
    decreases t,
{
    match t {
        Ty::Ref { origin, ty } => seq![origin@] + ty_origins(*ty),
        Ty::RefMut { origin, ty } => seq![origin@] + ty_origins(*ty),
        Ty::Struct { parameters, .. } => params_origins(parameters@),
        _ => Seq::empty(),
    }
}

pub open spec fn params_origins(ps: Seq<Parameter>) -> Seq<Seq<char>>
    decreases ps,
{
    if ps.len() == 0 {
        Seq::empty()
    } else {
        param_origins(ps[0]) + params_origins(ps.drop_first())
    }
}

pub open spec fn param_origins(p: Parameter) -> Seq<Seq<char>>
    decreases p,
{
    match p {
        Parameter::Origin(o) => seq![o@],
        Parameter::Ty(t) => ty_origins(t),
    }
}

/// The views of a sequence of origins.
pub open spec fn ov(s: Seq<Origin>) -> Seq<Seq<char>> {
    s.map_values(|o: Origin| o@)
}

pub broadcast proof fn lemma_ov_push(s: Seq<Origin>, o: Origin)
    ensures
        #[trigger] ov(s.push(o)) == ov(s) + seq![o@],
{
    assert(ov(s.push(o)) =~= ov(s) + seq![o@]);
}

impl Ty {
    /// Whether the type is a (shared or mutable) reference.
    pub fn is_ref(&self) -> (r: bool)
        ensures
            r == is_ref_ty(*self),
    {
        match self {
            Ty::Ref { .. } => true,
            Ty::RefMut { .. } => true,
            _ => false,
        }
    }

    /// Appends every origin present in this type, recursively, in root-to-leaf
    /// left-to-right order.
    pub fn collect_origins_into(&self, origins: &mut Vec<Origin>)
        ensures
            ov(final(origins)@) == ov(old(origins)@) + ty_origins(*self),
        decreases *self,
    {
        broadcast use lemma_ov_push, lemma_add_assoc, lemma_add_empty;

        match self {
            Ty::Ref { origin, ty } => {
                origins.push(origin.clone());
                ty.collect_origins_into(origins);
            },
            Ty::RefMut { origin, ty } => {
                origins.push(origin.clone());
                ty.collect_origins_into(origins);
            },
            Ty::Struct { parameters, .. } => {
                let n = parameters.len();
                let mut i: usize = 0;
                proof {
                    assert(parameters@.skip(0) =~= parameters@);
                }
                while i < n
                    invariant
                        *self is Struct,
                        *parameters == self->Struct_parameters,
                        n == parameters.len(),
                        i <= n,
                        ov(old(origins)@) + params_origins(parameters@) == ov(origins@)
                            + params_origins(parameters@.skip(i as int)),
                    decreases n - i,
                {
                    proof {
                        lemma_skip_step(parameters@, i as int);
                        assert(params_origins(parameters@.skip(i as int)) == param_origins(
                            parameters@[i as int],
                        ) + params_origins(parameters@.skip(i + 1)));
                        assert(*parameters == self->Struct_parameters);
                        assert(decreases_to!(*self => self->Struct_parameters));
                        assert(decreases_to!(self->Struct_parameters => self->Struct_parameters@));
                        assert(decreases_to!(parameters@ => parameters@[i as int]));
                    }
                    match &parameters[i] {
                        Parameter::Origin(o) => {
                            origins.push(o.clone());
                        },
                        Parameter::Ty(t) => {
                            proof {
                                let p = parameters@[i as int];
                                assert(p == Parameter::Ty(*t));
                                assert(decreases_to!(p => p->Ty_0));
                            }
                            t.collect_origins_into(origins);
                        },
                    }
                    i += 1;
                }
                proof {
                    assert(parameters@.skip(n as int) =~= Seq::<Parameter>::empty());
                    assert(params_origins(parameters@.skip(n as int)) =~= Seq::<
                        Seq<char>,
                    >::empty());
                }
            },
            Ty::I32 => {
                proof {
                    assert(ty_origins(*self) =~= Seq::<Seq<char>>::empty());
                }
            },
            Ty::Unit => {
                proof {
                    assert(ty_origins(*self) =~= Seq::<Seq<char>>::empty());
                }
            },
        }
    }
}

/// Whether the type is a reference, at the spec level.
pub open spec fn is_ref_ty(t: Ty) -> bool {
    t is Ref || t is RefMut
}

/// A declared variable of the program, with its static type.
pub struct Variable {
    pub name: String,
    pub ty: Ty,
}

/// A field of a struct declaration.
pub struct FieldDecl {
    pub name: String,
    pub ty: Ty,
}

/// A struct declaration: ordered generic slots and ordered fields.
pub struct StructDecl {
    pub name: String,
    pub generic_decls: Vec<GenericDecl>,
    pub field_decls: Vec<FieldDecl>,
}

/// How a place is accessed by an expression.
pub enum AccessKind {
    Borrow(Origin),
    BorrowMut(Origin),
    Copied,
    Moved,
}

/// An expression, as far as fact emission cares: a place access, a call with
/// argument expressions, or a literal (no facts).
pub enum Expr {
    Access { kind: AccessKind, place: Place },
    Call { callee: String, arguments: Vec<Expr> },
    Number(i32),
}

/// A statement: an assignment to a place, or a bare expression.
pub enum StatementKind {
    Assign(Place, Expr),
    Expr(Expr),
}

/// A statement together with the span of its source text.
pub struct Statement {
    pub kind: StatementKind,
    pub span: Span,
}

/// A named basic block: ordered statements and declared successor blocks.
pub struct BasicBlock {
    pub name: String,
    pub statements: Vec<Statement>,
    pub successors: Vec<String>,
}

/// A whole program: read-only input to the extraction.
pub struct Program {
    pub variables: Vec<Variable>,
    pub struct_decls: Vec<StructDecl>,
    pub basic_blocks: Vec<BasicBlock>,
}

} // verus!
