//! The declarative surface of a module: its type and record declarations,
//! its function specs and its callbacks.

use crate::form::Callback;
use crate::form::FunSpec;
use crate::form::FunSpecV;
use crate::form::OverloadedFunSpec;
use crate::form::RecDecl;
use crate::form::RecDeclV;
use crate::form::SignaturesV;
use crate::form::TypeDecl;
use crate::form::TypeDeclV;
use crate::ids::ids_view;
use crate::ids::Id;
use crate::ids::IdV;
use crate::seqs::find_where;
use crate::seqs::first_where;
use crate::seqs::lemma_first_where_at;
use crate::seqs::lemma_first_where_none;
use crate::seqs::views;
use std::sync::Arc;
use vstd::prelude::*;

verus! {

pub open spec fn type_decls_view(v: Seq<TypeDecl>) -> Seq<TypeDeclV> {
    views(v)
}

pub open spec fn rec_decls_view(v: Seq<RecDecl>) -> Seq<RecDeclV> {
    views(v)
}

pub open spec fn fun_specs_view(v: Seq<FunSpec>) -> Seq<FunSpecV> {
    views(v)
}

pub open spec fn overloaded_view(v: Seq<OverloadedFunSpec>) -> Seq<SignaturesV> {
    views(v)
}

pub open spec fn callbacks_view(v: Seq<Callback>) -> Seq<SignaturesV> {
    views(v)
}

/// The type declaration with the given identifier, if there is one.
pub open spec fn find_type(types: Seq<TypeDeclV>, id: IdV) -> Option<TypeDeclV> {
    find_where(types, |d: TypeDeclV| d.id == id)
}

/// The record declaration with the given name, if there is one.
pub open spec fn find_record(records: Seq<RecDeclV>, name: Seq<char>) -> Option<RecDeclV> {
    find_where(records, |d: RecDeclV| d.name == name)
}

/// The function spec with the given identifier, if there is one.
pub open spec fn find_spec(specs: Seq<FunSpecV>, id: IdV) -> Option<FunSpecV> {
    find_where(specs, |d: FunSpecV| d.id == id)
}

/// The entry with the given identifier in a list of overloaded specs or of
/// callbacks, if there is one.
pub open spec fn find_signatures(specs: Seq<SignaturesV>, id: IdV) -> Option<SignaturesV> {
    find_where(specs, |d: SignaturesV| d.id == id)
}

/// A type declaration of another module, held so that the types named in a
/// stub can be looked up in the stub itself.
#[derive(Debug, PartialEq, Eq)]
pub struct ForeignDecl {
    pub module: String,
    pub decl: TypeDecl,
}

impl View for ForeignDecl {
    type V = (Seq<char>, TypeDeclV);

    open spec fn view(&self) -> (Seq<char>, TypeDeclV) {
        (self.module@, self.decl@)
    }
}

/// What a module declares.
#[derive(Debug, PartialEq, Eq)]
pub struct ModuleStub {
    pub module: String,
    pub types: Vec<TypeDecl>,
    pub records: Vec<RecDecl>,
    pub specs: Vec<FunSpec>,
    pub overloaded_specs: Vec<OverloadedFunSpec>,
    pub callbacks: Vec<Callback>,
    pub optional_callbacks: Vec<Id>,
    /// The declarations of other modules that the stub's own stand on;
    /// only the last stage fills this in.
    pub foreign: Vec<ForeignDecl>,
}

pub struct ModuleStubV {
    pub module: Seq<char>,
    pub types: Seq<TypeDeclV>,
    pub records: Seq<RecDeclV>,
    pub specs: Seq<FunSpecV>,
    pub overloaded_specs: Seq<SignaturesV>,
    pub callbacks: Seq<SignaturesV>,
    pub optional_callbacks: Seq<IdV>,
    pub foreign: Seq<(Seq<char>, TypeDeclV)>,
}

impl ModuleStubV {
    /// The stub of a module that declares nothing.
    pub open spec fn empty(module: Seq<char>) -> ModuleStubV {
        ModuleStubV {
            module,
            types: Seq::empty(),
            records: Seq::empty(),
            specs: Seq::empty(),
            overloaded_specs: Seq::empty(),
            callbacks: Seq::empty(),
            optional_callbacks: Seq::empty(),
            foreign: Seq::empty(),
        }
    }

    /// No identifier is declared twice in one table, and none has both a
    /// plain and an overloaded spec.
    pub open spec fn wf(self) -> bool {
        &&& forall|i: int, j: int|
            0 <= i < j < self.types.len() ==> self.types[i].id != self.types[j].id
        &&& forall|i: int, j: int|
            0 <= i < j < self.records.len() ==> self.records[i].name != self.records[j].name
        &&& forall|i: int, j: int|
            0 <= i < j < self.specs.len() ==> self.specs[i].id != self.specs[j].id
        &&& forall|i: int, j: int|
            0 <= i < j < self.overloaded_specs.len() ==> self.overloaded_specs[i].id
                != self.overloaded_specs[j].id
        &&& forall|i: int, j: int|
            0 <= i < self.specs.len() && 0 <= j < self.overloaded_specs.len() ==> self.specs[i].id
                != self.overloaded_specs[j].id
        &&& forall|i: int, j: int|
            0 <= i < j < self.optional_callbacks.len() ==> self.optional_callbacks[i]
                != self.optional_callbacks[j]
    }
}

impl View for ModuleStub {
    type V = ModuleStubV;

    open spec fn view(&self) -> ModuleStubV {
        ModuleStubV {
            module: self.module@,
            types: type_decls_view(self.types@),
            records: rec_decls_view(self.records@),
            specs: fun_specs_view(self.specs@),
            overloaded_specs: overloaded_view(self.overloaded_specs@),
            callbacks: callbacks_view(self.callbacks@),
            optional_callbacks: ids_view(self.optional_callbacks@),
            foreign: views(self.foreign@),
        }
    }
}

/// Position of the type declaration with the given identifier.
pub fn type_position(types: &Vec<TypeDecl>, id: &Id) -> (at: Option<usize>)
    ensures
        match at {
            Some(i) => i < types@.len() && first_where(
                type_decls_view(types@),
                |d: TypeDeclV| d.id == id@,
            ) == Some(i as int) && find_type(type_decls_view(types@), id@) == Some(types@[i as int]@),
            None => find_type(type_decls_view(types@), id@) == None::<TypeDeclV>,
        },
{
    let ghost p = |d: TypeDeclV| d.id == id@;
    let mut i: usize = 0;
    while i < types.len()
        invariant
            i <= types.len(),
            forall|j: int| 0 <= j < i ==> !p(#[trigger] type_decls_view(types@)[j]),
            p == (|d: TypeDeclV| d.id == id@),
        decreases types.len() - i,
    {
        if types[i].id.same(id) {
            proof {
                lemma_first_where_at(type_decls_view(types@), p, i as int);
            }
            return Some(i);
        }
        i = i + 1;
    }
    proof {
        lemma_first_where_none(type_decls_view(types@), p);
    }
    None
}

/// Position of the record declaration with the given name.
pub fn record_position(records: &Vec<RecDecl>, name: &String) -> (at: Option<usize>)
    ensures
        match at {
            Some(i) => i < records@.len() && find_record(rec_decls_view(records@), name@) == Some(
                records@[i as int]@,
            ),
            None => find_record(rec_decls_view(records@), name@) == None::<RecDeclV>,
        },
{
    let ghost p = |d: RecDeclV| d.name == name@;
    let mut i: usize = 0;
    while i < records.len()
        invariant
            i <= records.len(),
            forall|j: int| 0 <= j < i ==> !p(#[trigger] rec_decls_view(records@)[j]),
            p == (|d: RecDeclV| d.name == name@),
        decreases records.len() - i,
    {
        if records[i].name == *name {
            proof {
                lemma_first_where_at(rec_decls_view(records@), p, i as int);
            }
            return Some(i);
        }
        i = i + 1;
    }
    proof {
        lemma_first_where_none(rec_decls_view(records@), p);
    }
    None
}

/// Position of the function spec with the given identifier.
pub fn spec_position(specs: &Vec<FunSpec>, id: &Id) -> (at: Option<usize>)
    ensures
        match at {
            Some(i) => i < specs@.len() && find_spec(fun_specs_view(specs@), id@) == Some(
                specs@[i as int]@,
            ),
            None => find_spec(fun_specs_view(specs@), id@) == None::<FunSpecV>,
        },
{
    let ghost p = |d: FunSpecV| d.id == id@;
    let mut i: usize = 0;
    while i < specs.len()
        invariant
            i <= specs.len(),
            forall|j: int| 0 <= j < i ==> !p(#[trigger] fun_specs_view(specs@)[j]),
            p == (|d: FunSpecV| d.id == id@),
        decreases specs.len() - i,
    {
        if specs[i].id.same(id) {
            proof {
                lemma_first_where_at(fun_specs_view(specs@), p, i as int);
            }
            return Some(i);
        }
        i = i + 1;
    }
    proof {
        lemma_first_where_none(fun_specs_view(specs@), p);
    }
    None
}

/// Position of the overloaded spec with the given identifier.
pub fn overloaded_position(specs: &Vec<OverloadedFunSpec>, id: &Id) -> (at: Option<usize>)
    ensures
        match at {
            Some(i) => i < specs@.len() && find_signatures(overloaded_view(specs@), id@) == Some(
                specs@[i as int]@,
            ),
            None => find_signatures(overloaded_view(specs@), id@) == None::<SignaturesV>,
        },
{
    let ghost p = |d: SignaturesV| d.id == id@;
    let mut i: usize = 0;
    while i < specs.len()
        invariant
            i <= specs.len(),
            forall|j: int| 0 <= j < i ==> !p(#[trigger] overloaded_view(specs@)[j]),
            p == (|d: SignaturesV| d.id == id@),
        decreases specs.len() - i,
    {
        if specs[i].id.same(id) {
            proof {
                lemma_first_where_at(overloaded_view(specs@), p, i as int);
            }
            return Some(i);
        }
        i = i + 1;
    }
    proof {
        lemma_first_where_none(overloaded_view(specs@), p);
    }
    None
}

impl ModuleStub {
    /// The stub of a module that declares nothing.
    pub fn new(module: String) -> (stub: ModuleStub)
        ensures
            stub@ == ModuleStubV::empty(module@),
            stub@.wf(),
    {
        let stub = ModuleStub {
            module,
            types: Vec::new(),
            records: Vec::new(),
            specs: Vec::new(),
            overloaded_specs: Vec::new(),
            callbacks: Vec::new(),
            optional_callbacks: Vec::new(),
            foreign: Vec::new(),
        };
        proof {
            assert(stub@.types =~= Seq::empty());
            assert(stub@.records =~= Seq::empty());
            assert(stub@.specs =~= Seq::empty());
            assert(stub@.overloaded_specs =~= Seq::empty());
            assert(stub@.callbacks =~= Seq::empty());
            assert(stub@.optional_callbacks =~= Seq::empty());
            assert(stub@.foreign =~= Seq::empty());
        }
        stub
    }
}

/// A stub with a verdict for each type declaration: whether unfolding it
/// always reaches a constructor.
#[derive(Debug, PartialEq, Eq)]
pub struct VStub {
    pub stub: Arc<ModuleStub>,
    pub productive: Vec<bool>,
}

pub struct VStubV {
    pub stub: ModuleStubV,
    pub productive: Seq<bool>,
}

impl View for VStub {
    type V = VStubV;

    open spec fn view(&self) -> VStubV {
        VStubV { stub: self.stub@, productive: self.productive@ }
    }
}

impl VStubV {
    /// There is one verdict for each type declaration.
    pub open spec fn wf(self) -> bool {
        self.stub.wf() && self.productive.len() == self.stub.types.len()
    }
}

} // verus!
