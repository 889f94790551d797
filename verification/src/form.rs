//! Declarations of a module as the pipeline sees them: type expressions,
//! the declarations built from them, and the forms of a syntax tree.

use crate::ids::clone_strings;
use crate::ids::ids_view;
use crate::ids::strings_view;
use crate::ids::Id;
use crate::ids::IdV;
use crate::seqs::views;
use vstd::prelude::*;

verus! {

/// Types without parameters that the language provides.
#[derive(Clone, Copy, Debug, PartialEq, Eq, Structural)]
pub enum Builtin {
    AnyType,
    NoneType,
    AtomType,
    IntegerType,
    NumberType,
    BinaryType,
    PidType,
}

/// What stands at the root of a type expression.
#[derive(Debug, PartialEq, Eq)]
pub enum Head {
    Builtin(Builtin),
    /// One atom, as `ok`.
    AtomLit(String),
    /// A parameter of the declaration the expression stands in.
    Var(String),
    Tuple,
    /// A list; its one argument is the element type.
    List,
    /// A function; the last argument is the result, those before it the parameters.
    Fun,
    Union,
    /// A type of the same module, by name; its arity is the number of arguments.
    Local(String),
    /// A type of a named module, by name; its arity is the number of arguments.
    Remote(String, String),
}

/// A type expression: a head applied to argument expressions.
#[derive(Debug, PartialEq, Eq)]
pub struct Type {
    pub head: Head,
    pub args: Vec<Type>,
}

pub enum HeadV {
    Builtin(Builtin),
    AtomLit(Seq<char>),
    Var(Seq<char>),
    Tuple,
    List,
    Fun,
    Union,
    Local(Seq<char>),
    Remote(Seq<char>, Seq<char>),
}

pub struct TypeV {
    pub head: HeadV,
    pub args: Seq<TypeV>,
}

impl View for Head {
    type V = HeadV;

    open spec fn view(&self) -> HeadV {
        match self {
            Head::Builtin(b) => HeadV::Builtin(*b),
            Head::AtomLit(s) => HeadV::AtomLit(s@),
            Head::Var(s) => HeadV::Var(s@),
            Head::Tuple => HeadV::Tuple,
            Head::List => HeadV::List,
            Head::Fun => HeadV::Fun,
            Head::Union => HeadV::Union,
            Head::Local(n) => HeadV::Local(n@),
            Head::Remote(m, n) => HeadV::Remote(m@, n@),
        }
    }
}

impl View for Type {
    type V = TypeV;

    open spec fn view(&self) -> TypeV
        decreases self,
    {
        TypeV {
            head: self.head@,
            args: Seq::new(
                self.args.len() as nat,
                |i: int|
                    if 0 <= i < self.args.len() {
                        self.args[i]@
                    } else {
                        TypeV { head: HeadV::Union, args: Seq::empty() }
                    },
            ),
        }
    }
}

impl Head {
    pub fn clone(&self) -> (h: Head)
        ensures
            h@ == self@,
    {
        match self {
            Head::Builtin(b) => Head::Builtin(*b),
            Head::AtomLit(s) => Head::AtomLit(s.clone()),
            Head::Var(s) => Head::Var(s.clone()),
            Head::Tuple => Head::Tuple,
            Head::List => Head::List,
            Head::Fun => Head::Fun,
            Head::Union => Head::Union,
            Head::Local(n) => Head::Local(n.clone()),
            Head::Remote(m, n) => Head::Remote(m.clone(), n.clone()),
        }
    }
}

impl Type {
    pub fn clone(&self) -> (t: Type)
        ensures
            t@ == self@,
        decreases self,
    {
        let mut args: Vec<Type> = Vec::new();
        let mut i: usize = 0;
        while i < self.args.len()
            invariant
                i <= self.args.len(),
                args@.len() == i,
                forall|j: int| 0 <= j < i ==> args@[j]@ == self.args@[j]@,
            decreases self.args.len() - i,
        {
            args.push(self.args[i].clone());
            i = i + 1;
        }
        let t = Type { head: self.head.clone(), args };
        proof {
            assert(t@.args =~= self@.args);
        }
        t
    }
}

/// Views of the type expressions of a list.
pub open spec fn types_view(v: Seq<Type>) -> Seq<TypeV> {
    views(v)
}

/// The arguments of a view are the views of the arguments.
pub proof fn lemma_type_view_args(t: Type)
    ensures
        t@.head == t.head@,
        t@.args == types_view(t.args@),
{
    assert(t@.args =~= types_view(t.args@));
}

pub fn clone_types(v: &Vec<Type>) -> (r: Vec<Type>)
    ensures
        types_view(r@) == types_view(v@),
{
    let mut r: Vec<Type> = Vec::new();
    let mut i: usize = 0;
    while i < v.len()
        invariant
            i <= v.len(),
            r@.len() == i,
            forall|j: int| 0 <= j < i ==> r@[j]@ == v@[j]@,
        decreases v.len() - i,
    {
        r.push(v[i].clone());
        i = i + 1;
    }
    proof {
        assert(types_view(r@) =~= types_view(v@));
    }
    r
}

/// A named type with its parameters and what it stands for.
#[derive(Debug, PartialEq, Eq)]
pub struct TypeDecl {
    pub id: Id,
    pub params: Vec<String>,
    pub body: Type,
}

pub struct TypeDeclV {
    pub id: IdV,
    pub params: Seq<Seq<char>>,
    pub body: TypeV,
}

impl View for TypeDecl {
    type V = TypeDeclV;

    open spec fn view(&self) -> TypeDeclV {
        TypeDeclV { id: self.id@, params: strings_view(self.params@), body: self.body@ }
    }
}

impl TypeDecl {
    pub fn clone(&self) -> (d: TypeDecl)
        ensures
            d@ == self@,
    {
        TypeDecl { id: self.id.clone(), params: clone_strings(&self.params), body: self.body.clone() }
    }
}

/// One field of a record with its type.
#[derive(Debug, PartialEq, Eq)]
pub struct RecField {
    pub name: String,
    pub ty: Type,
}

/// A record declaration; records are found by name.
#[derive(Debug, PartialEq, Eq)]
pub struct RecDecl {
    pub name: String,
    pub fields: Vec<RecField>,
}

pub struct RecDeclV {
    pub name: Seq<char>,
    pub fields: Seq<(Seq<char>, TypeV)>,
}

impl View for RecField {
    type V = (Seq<char>, TypeV);

    open spec fn view(&self) -> (Seq<char>, TypeV) {
        (self.name@, self.ty@)
    }
}

pub open spec fn fields_view(v: Seq<RecField>) -> Seq<(Seq<char>, TypeV)> {
    views(v)
}

impl View for RecDecl {
    type V = RecDeclV;

    open spec fn view(&self) -> RecDeclV {
        RecDeclV { name: self.name@, fields: fields_view(self.fields@) }
    }
}

impl RecDecl {
    pub fn clone(&self) -> (d: RecDecl)
        ensures
            d@ == self@,
    {
        let mut fields: Vec<RecField> = Vec::new();
        let mut i: usize = 0;
        while i < self.fields.len()
            invariant
                i <= self.fields.len(),
                fields@.len() == i,
                forall|j: int|
                    0 <= j < i ==> fields@[j].name@ == self.fields@[j].name@ && fields@[j].ty@
                        == self.fields@[j].ty@,
            decreases self.fields.len() - i,
        {
            fields.push(RecField { name: self.fields[i].name.clone(), ty: self.fields[i].ty.clone() });
            i = i + 1;
        }
        proof {
            assert(fields_view(fields@) =~= fields_view(self.fields@));
        }
        RecDecl { name: self.name.clone(), fields }
    }
}

/// The one signature of a function.
#[derive(Debug, PartialEq, Eq)]
pub struct FunSpec {
    pub id: Id,
    pub ty: Type,
}

pub struct FunSpecV {
    pub id: IdV,
    pub ty: TypeV,
}

impl View for FunSpec {
    type V = FunSpecV;

    open spec fn view(&self) -> FunSpecV {
        FunSpecV { id: self.id@, ty: self.ty@ }
    }
}

impl FunSpec {
    pub fn clone(&self) -> (d: FunSpec)
        ensures
            d@ == self@,
    {
        FunSpec { id: self.id.clone(), ty: self.ty.clone() }
    }
}

/// The several signatures of an overloaded function.
#[derive(Debug, PartialEq, Eq)]
pub struct OverloadedFunSpec {
    pub id: Id,
    pub tys: Vec<Type>,
}

/// An identifier with a list of signatures: the view of an overloaded
/// function spec, of a callback, and of a function spec as it is written.
pub struct SignaturesV {
    pub id: IdV,
    pub tys: Seq<TypeV>,
}

impl View for OverloadedFunSpec {
    type V = SignaturesV;

    open spec fn view(&self) -> SignaturesV {
        SignaturesV { id: self.id@, tys: types_view(self.tys@) }
    }
}

impl OverloadedFunSpec {
    pub fn clone(&self) -> (d: OverloadedFunSpec)
        ensures
            d@ == self@,
    {
        OverloadedFunSpec { id: self.id.clone(), tys: clone_types(&self.tys) }
    }
}

/// A function that a behaviour asks of the modules that implement it.
#[derive(Debug, PartialEq, Eq)]
pub struct Callback {
    pub id: Id,
    pub tys: Vec<Type>,
}

impl View for Callback {
    type V = SignaturesV;

    open spec fn view(&self) -> SignaturesV {
        SignaturesV { id: self.id@, tys: types_view(self.tys@) }
    }
}

impl Callback {
    pub fn clone(&self) -> (d: Callback)
        ensures
            d@ == self@,
    {
        Callback { id: self.id.clone(), tys: clone_types(&self.tys) }
    }
}

/// A function spec as it is written: one signature or several.
#[derive(Debug, PartialEq, Eq)]
pub struct ExternalFunSpec {
    pub id: Id,
    pub types: Vec<Type>,
}

impl View for ExternalFunSpec {
    type V = SignaturesV;

    open spec fn view(&self) -> SignaturesV {
        SignaturesV { id: self.id@, tys: types_view(self.types@) }
    }
}

/// One form of a module's syntax tree.
#[derive(Debug, PartialEq, Eq)]
pub enum ExternalForm {
    Module(String),
    FunDecl(Id),
    File(String),
    ElpMetadata(String),
    Behaviour(String),
    EqwalizerNowarnFunction(Id),
    EqwalizerUnlimitedRefinement(Id),
    ExportType(Vec<Id>),
    TypeDecl(TypeDecl),
    FunSpec(ExternalFunSpec),
    Callback(Callback),
    OptionalCallbacks(Vec<Id>),
    RecDecl(RecDecl),
}

pub enum ExternalFormV {
    Module(Seq<char>),
    FunDecl(IdV),
    File(Seq<char>),
    ElpMetadata(Seq<char>),
    Behaviour(Seq<char>),
    EqwalizerNowarnFunction(IdV),
    EqwalizerUnlimitedRefinement(IdV),
    ExportType(Seq<IdV>),
    TypeDecl(TypeDeclV),
    FunSpec(SignaturesV),
    Callback(SignaturesV),
    OptionalCallbacks(Seq<IdV>),
    RecDecl(RecDeclV),
}

impl View for ExternalForm {
    type V = ExternalFormV;

    open spec fn view(&self) -> ExternalFormV {
        match self {
            ExternalForm::Module(s) => ExternalFormV::Module(s@),
            ExternalForm::FunDecl(id) => ExternalFormV::FunDecl(id@),
            ExternalForm::File(s) => ExternalFormV::File(s@),
            ExternalForm::ElpMetadata(s) => ExternalFormV::ElpMetadata(s@),
            ExternalForm::Behaviour(s) => ExternalFormV::Behaviour(s@),
            ExternalForm::EqwalizerNowarnFunction(id) => ExternalFormV::EqwalizerNowarnFunction(id@),
            ExternalForm::EqwalizerUnlimitedRefinement(id) => ExternalFormV::EqwalizerUnlimitedRefinement(
                id@,
            ),
            ExternalForm::ExportType(ids) => ExternalFormV::ExportType(ids_view(ids@)),
            ExternalForm::TypeDecl(d) => ExternalFormV::TypeDecl(d@),
            ExternalForm::FunSpec(d) => ExternalFormV::FunSpec(d@),
            ExternalForm::Callback(d) => ExternalFormV::Callback(d@),
            ExternalForm::OptionalCallbacks(ids) => ExternalFormV::OptionalCallbacks(ids_view(ids@)),
            ExternalForm::RecDecl(d) => ExternalFormV::RecDecl(d@),
        }
    }
}

/// Whether a form says nothing that a stub holds: the module's name, a
/// function's body, a file marker, metadata, a behaviour, and the two
/// attributes that steer the type checker.
pub open spec fn spec_is_non_stub_form(form: ExternalFormV) -> bool {
    match form {
        ExternalFormV::Module(_) => true,
        ExternalFormV::FunDecl(_) => true,
        ExternalFormV::File(_) => true,
        ExternalFormV::ElpMetadata(_) => true,
        ExternalFormV::Behaviour(_) => true,
        ExternalFormV::EqwalizerNowarnFunction(_) => true,
        ExternalFormV::EqwalizerUnlimitedRefinement(_) => true,
        _ => false,
    }
}

pub fn is_non_stub_form(form: &ExternalForm) -> (non_stub: bool)
    ensures
        non_stub == spec_is_non_stub_form(form@),
{
    match form {
        ExternalForm::Module(_) => true,
        ExternalForm::FunDecl(_) => true,
        ExternalForm::File(_) => true,
        ExternalForm::ElpMetadata(_) => true,
        ExternalForm::Behaviour(_) => true,
        ExternalForm::EqwalizerNowarnFunction(_) => true,
        ExternalForm::EqwalizerUnlimitedRefinement(_) => true,
        _ => false,
    }
}

/// The forms of one module, in source order.
#[derive(Debug, PartialEq, Eq)]
pub struct AST {
    pub forms: Vec<ExternalForm>,
}

pub open spec fn forms_view(v: Seq<ExternalForm>) -> Seq<ExternalFormV> {
    views(v)
}

impl View for AST {
    type V = Seq<ExternalFormV>;

    open spec fn view(&self) -> Seq<ExternalFormV> {
        forms_view(self.forms@)
    }
}

} // verus!
