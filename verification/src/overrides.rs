//! Declarations that stand in for a module's own: the entries of the two
//! reserved modules, whose names carry the module they are meant for.

use crate::form::FunSpec;
use crate::form::FunSpecV;
use crate::form::OverloadedFunSpec;
use crate::form::SignaturesV;
use crate::form::TypeDecl;
use crate::form::TypeDeclV;
use crate::ids::Id;
use crate::ids::IdV;
use crate::seqs::find_where;
use crate::seqs::first_where;
use crate::seqs::lemma_first_where;
use crate::seqs::lemma_first_where_at;
use crate::seqs::lemma_first_where_none;
use crate::stub::fun_specs_view;
use crate::stub::overloaded_view;
use crate::stub::type_decls_view;
use crate::stub::ModuleStubV;
use crate::text::has_colon;
use crate::text::lemma_split_injective;
use crate::text::module_part;
use crate::text::name_part;
use crate::text::split_once_colon;
use crate::seqs::views;
use vstd::prelude::*;

verus! {

/// A declaration that overrides what `module` itself says of `id`.
#[derive(Debug, PartialEq, Eq)]
pub struct Override<D> {
    pub module: String,
    pub id: Id,
    pub decl: D,
}

pub struct OverrideV<DV> {
    pub module: Seq<char>,
    pub id: IdV,
    pub decl: DV,
}

impl<D: View> View for Override<D> {
    type V = OverrideV<D::V>;

    open spec fn view(&self) -> OverrideV<D::V> {
        OverrideV { module: self.module@, id: self.id@, decl: self.decl@ }
    }
}

pub open spec fn overrides_view<D: View>(v: Seq<Override<D>>) -> Seq<OverrideV<D::V>> {
    views(v)
}

/// The override for `id` of `module`, if there is one.
pub open spec fn find_override<DV>(
    overrides: Seq<OverrideV<DV>>,
    module: Seq<char>,
    id: IdV,
) -> Option<DV> {
    match find_where(overrides, |o: OverrideV<DV>| o.module == module && o.id == id) {
        Some(o) => Some(o.decl),
        None => None,
    }
}

/// The identifier that a qualified identifier stands for in its module.
pub open spec fn unqualified(id: IdV) -> IdV {
    IdV { name: name_part(id.name), arity: id.arity }
}

/// A declaration that has an identifier and can be copied.
pub trait Named: View + Sized {
    /// The identifier of a declaration.
    spec fn id_of(v: Self::V) -> IdV;

    fn id(&self) -> (id: &Id)
        ensures
            id@ == Self::id_of(self@),
    ;

    fn copy(&self) -> (c: Self)
        ensures
            c@ == self@,
    ;
}

impl Named for TypeDecl {
    open spec fn id_of(v: TypeDeclV) -> IdV {
        v.id
    }

    fn id(&self) -> (id: &Id) {
        &self.id
    }

    fn copy(&self) -> (c: Self) {
        self.clone()
    }
}

impl Named for FunSpec {
    open spec fn id_of(v: FunSpecV) -> IdV {
        v.id
    }

    fn id(&self) -> (id: &Id) {
        &self.id
    }

    fn copy(&self) -> (c: Self) {
        self.clone()
    }
}

impl Named for OverloadedFunSpec {
    open spec fn id_of(v: SignaturesV) -> IdV {
        v.id
    }

    fn id(&self) -> (id: &Id) {
        &self.id
    }

    fn copy(&self) -> (c: Self) {
        self.clone()
    }
}

/// Every declaration of the list has a name with a colon.
pub open spec fn all_qualified<D: Named>(decls: Seq<D::V>) -> bool {
    forall|i: int| 0 <= i < decls.len() ==> has_colon(D::id_of(#[trigger] decls[i]).name)
}

/// The declarations of a reserved module, each under the module and the
/// identifier that its name gives when split at the first colon.
pub open spec fn overrides_of<D: Named>(decls: Seq<D::V>) -> Seq<OverrideV<D::V>> {
    Seq::new(
        decls.len(),
        |i: int|
            OverrideV {
                module: module_part(D::id_of(decls[i]).name),
                id: unqualified(D::id_of(decls[i])),
                decl: decls[i],
            },
    )
}

/// Every type of the list has a name with a colon.
pub open spec fn types_qualified(types: Seq<TypeDeclV>) -> bool {
    all_qualified::<TypeDecl>(types)
}

/// Every plain spec of the list has a name with a colon.
pub open spec fn specs_qualified(specs: Seq<FunSpecV>) -> bool {
    all_qualified::<FunSpec>(specs)
}

/// Every overloaded spec of the list has a name with a colon.
pub open spec fn signatures_qualified(specs: Seq<SignaturesV>) -> bool {
    all_qualified::<OverloadedFunSpec>(specs)
}

/// The overrides that the type declarations of the reserved module stand for.
pub open spec fn type_overrides(types: Seq<TypeDeclV>) -> Seq<OverrideV<TypeDeclV>> {
    overrides_of::<TypeDecl>(types)
}

/// The overrides that the function specs of the reserved module stand for.
pub open spec fn spec_overrides(specs: Seq<FunSpecV>) -> Seq<OverrideV<FunSpecV>> {
    overrides_of::<FunSpec>(specs)
}

/// The overrides that the overloaded specs of the reserved module stand for.
pub open spec fn overloaded_overrides(specs: Seq<SignaturesV>) -> Seq<OverrideV<SignaturesV>> {
    overrides_of::<OverloadedFunSpec>(specs)
}

/// Splits a qualified identifier into the module and the identifier in it.
pub fn split_id(id: &Id) -> (parts: Option<(String, Id)>)
    ensures
        match parts {
            Some((module, inner)) => has_colon(id@.name) && module@ == module_part(id@.name)
                && inner@ == unqualified(id@),
            None => !has_colon(id@.name),
        },
{
    match split_once_colon(&id.name) {
        Some((module, name)) => Some((module, Id { name, arity: id.arity })),
        None => None,
    }
}

/// Whether every declaration's name has a colon.
pub fn are_qualified<D: Named>(decls: &Vec<D>) -> (ok: bool)
    ensures
        ok == all_qualified::<D>(views(decls@)),
{
    let mut i: usize = 0;
    while i < decls.len()
        invariant
            i <= decls.len(),
            forall|j: int| 0 <= j < i ==> has_colon(D::id_of(#[trigger] views(decls@)[j]).name),
        decreases decls.len() - i,
    {
        if split_once_colon(&decls[i].id().name).is_none() {
            proof {
                assert(!has_colon(D::id_of(views(decls@)[i as int]).name));
            }
            return false;
        }
        i = i + 1;
    }
    true
}

/// The overrides that the declarations of a reserved module stand for.
pub fn split_overrides<D: Named>(decls: &Vec<D>) -> (custom: Vec<Override<D>>)
    requires
        all_qualified::<D>(views(decls@)),
    ensures
        overrides_view(custom@) == overrides_of::<D>(views(decls@)),
{
    let mut custom: Vec<Override<D>> = Vec::new();
    let mut i: usize = 0;
    while i < decls.len()
        invariant
            i <= decls.len(),
            all_qualified::<D>(views(decls@)),
            custom@.len() == i,
            forall|j: int| 0 <= j < i ==> (#[trigger] custom@[j])@ == overrides_of::<D>(views(decls@))[j],
        decreases decls.len() - i,
    {
        proof {
            assert(has_colon(D::id_of(views(decls@)[i as int]).name));
        }
        match split_id(decls[i].id()) {
            Some((module, id)) => {
                custom.push(Override { module, id, decl: decls[i].copy() });
            },
            None => {
                proof {
                    assert(false);
                }
            },
        }
        i = i + 1;
    }
    proof {
        assert(overrides_view(custom@) =~= overrides_of::<D>(views(decls@)));
    }
    custom
}

/// Whether every type's name has a colon.
pub fn all_types_qualified(types: &Vec<TypeDecl>) -> (ok: bool)
    ensures
        ok == types_qualified(type_decls_view(types@)),
{
    are_qualified(types)
}

/// Whether every spec's name has a colon.
pub fn all_specs_qualified(specs: &Vec<FunSpec>) -> (ok: bool)
    ensures
        ok == specs_qualified(fun_specs_view(specs@)),
{
    are_qualified(specs)
}

/// Whether every overloaded spec's name has a colon.
pub fn all_overloaded_qualified(specs: &Vec<OverloadedFunSpec>) -> (ok: bool)
    ensures
        ok == signatures_qualified(overloaded_view(specs@)),
{
    are_qualified(specs)
}

/// The overrides that the reserved module's type declarations stand for.
pub fn split_type_overrides(types: &Vec<TypeDecl>) -> (custom: Vec<Override<TypeDecl>>)
    requires
        types_qualified(type_decls_view(types@)),
    ensures
        overrides_view(custom@) == type_overrides(type_decls_view(types@)),
{
    split_overrides(types)
}

/// The overrides that the reserved module's function specs stand for.
pub fn split_spec_overrides(specs: &Vec<FunSpec>) -> (custom: Vec<Override<FunSpec>>)
    requires
        specs_qualified(fun_specs_view(specs@)),
    ensures
        overrides_view(custom@) == spec_overrides(fun_specs_view(specs@)),
{
    split_overrides(specs)
}

/// The overrides that the reserved module's overloaded specs stand for.
pub fn split_overloaded_overrides(specs: &Vec<OverloadedFunSpec>) -> (custom: Vec<
    Override<OverloadedFunSpec>,
>)
    requires
        signatures_qualified(overloaded_view(specs@)),
    ensures
        overrides_view(custom@) == overloaded_overrides(overloaded_view(specs@)),
{
    split_overrides(specs)
}

/// Position of the override for `id` of `module`.
pub fn override_position<D: View>(overrides: &Vec<Override<D>>, module: &String, id: &Id) -> (at:
    Option<usize>)
    ensures
        match at {
            Some(i) => i < overrides@.len() && find_override(
                overrides_view(overrides@),
                module@,
                id@,
            ) == Some(overrides@[i as int].decl@),
            None => find_override(overrides_view(overrides@), module@, id@) == None::<D::V>,
        },
{
    let ghost p = |o: OverrideV<D::V>| o.module == module@ && o.id == id@;
    let mut i: usize = 0;
    while i < overrides.len()
        invariant
            i <= overrides.len(),
            forall|j: int| 0 <= j < i ==> !p(#[trigger] overrides_view(overrides@)[j]),
            p == (|o: OverrideV<D::V>| o.module == module@ && o.id == id@),
        decreases overrides.len() - i,
    {
        if overrides[i].module == *module && overrides[i].id.same(id) {
            proof {
                lemma_first_where_at(overrides_view(overrides@), p, i as int);
            }
            return Some(i);
        }
        i = i + 1;
    }
    proof {
        lemma_first_where_none(overrides_view(overrides@), p);
    }
    None
}

/// An override found for (`module`, `id`) comes from an entry of the
/// reserved module whose name is `module:name`.
pub proof fn lemma_override_source<D: Named>(decls: Seq<D::V>, module: Seq<char>, id: IdV)
    requires
        find_override(overrides_of::<D>(decls), module, id).is_some(),
    ensures
        exists|i: int|
            0 <= i < decls.len() && module_part(D::id_of(#[trigger] decls[i]).name) == module
                && unqualified(D::id_of(decls[i])) == id,
{
    let o = overrides_of::<D>(decls);
    let p = |o: OverrideV<D::V>| o.module == module && o.id == id;
    lemma_first_where(o, p);
    let i = first_where(o, p).unwrap();
    assert(o[i].module == module_part(D::id_of(decls[i]).name));
}

/// No identifier has both a plain and an overloaded override: the two come
/// from one well-formed stub, and splitting names loses nothing.
pub proof fn lemma_overrides_exclusive(reserved: ModuleStubV, module: Seq<char>, id: IdV)
    requires
        reserved.wf(),
        specs_qualified(reserved.specs),
        signatures_qualified(reserved.overloaded_specs),
    ensures
        !(find_override(spec_overrides(reserved.specs), module, id).is_some() && find_override(
            overloaded_overrides(reserved.overloaded_specs),
            module,
            id,
        ).is_some()),
{
    if find_override(spec_overrides(reserved.specs), module, id).is_some() && find_override(
        overloaded_overrides(reserved.overloaded_specs),
        module,
        id,
    ).is_some() {
        lemma_override_source::<FunSpec>(reserved.specs, module, id);
        lemma_override_source::<OverloadedFunSpec>(reserved.overloaded_specs, module, id);
        let i = choose|i: int|
            0 <= i < reserved.specs.len() && module_part(
                FunSpec::id_of(#[trigger] reserved.specs[i]).name,
            ) == module && unqualified(FunSpec::id_of(reserved.specs[i])) == id;
        let j = choose|j: int|
            0 <= j < reserved.overloaded_specs.len() && module_part(
                OverloadedFunSpec::id_of(#[trigger] reserved.overloaded_specs[j]).name,
            ) == module && unqualified(OverloadedFunSpec::id_of(reserved.overloaded_specs[j])) == id;
        lemma_split_injective(reserved.specs[i].id.name, reserved.overloaded_specs[j].id.name);
        assert(reserved.specs[i].id == reserved.overloaded_specs[j].id);
    }
}

} // verus!
