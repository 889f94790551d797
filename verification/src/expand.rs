//! Stage 2: from a module's forms to its stub.

use crate::db::converted_stub;
use crate::error::Error;
use crate::error::ErrorV;
use crate::form::forms_view;
use crate::form::lemma_type_view_args;
use crate::form::types_view;
use crate::form::Callback;
use crate::form::ExternalForm;
use crate::form::FunSpec;
use crate::form::Head;
use crate::form::OverloadedFunSpec;
use crate::form::RecDecl;
use crate::form::RecField;
use crate::form::Type;
use crate::form::TypeDecl;
use crate::form::TypeV;
use crate::ids::clone_strings;
use crate::ids::contains_id;
use crate::ids::ids_view;
use crate::ids::Id;
use crate::ids::ProjectId;
use crate::input::same_text;
use crate::pipeline::add_new_ids;
use crate::pipeline::all_resolve;
use crate::pipeline::all_well_shaped;
use crate::pipeline::declares;
use crate::pipeline::declares_type;
use crate::pipeline::expand_form;
use crate::pipeline::expand_type;
use crate::pipeline::expand_types;
use crate::pipeline::exports;
use crate::pipeline::exports_type;
use crate::pipeline::field_types;
use crate::pipeline::project_converted;
use crate::pipeline::referenced;
use crate::pipeline::resolves;
use crate::pipeline::well_shaped;
use crate::pipeline::with_field_types;
use crate::seqs::lemma_first_where_at;
use crate::seqs::lemma_first_where_none;
use crate::seqs::views;
use crate::store::Store;
use crate::stub::overloaded_position;
use crate::stub::record_position;
use crate::stub::spec_position;
use crate::stub::type_position;
use crate::stub::ModuleStub;
use vstd::prelude::*;
use vstd::string::StringExecFns;

verus! {

/// A yes, a no or an error, as pure data.
pub open spec fn flag_view(r: Result<bool, Error>) -> Result<bool, ErrorV> {
    match r {
        Ok(b) => Ok(b),
        Err(e) => Err(e@),
    }
}

/// Whether a type is declared among the forms.
pub fn type_declared(forms: &Vec<ExternalForm>, id: &Id) -> (found: bool)
    ensures
        found == declares_type(forms_view(forms@), id@),
{
    let ghost p = declares(id@);
    let mut i: usize = 0;
    while i < forms.len()
        invariant
            i <= forms.len(),
            p == declares(id@),
            forall|j: int| 0 <= j < i ==> !p(#[trigger] forms_view(forms@)[j]),
        decreases forms.len() - i,
    {
        match &forms[i] {
            ExternalForm::TypeDecl(d) => {
                if d.id.same(id) {
                    proof {
                        lemma_first_where_at(forms_view(forms@), p, i as int);
                    }
                    return true;
                }
            },
            _ => {},
        }
        i = i + 1;
    }
    proof {
        lemma_first_where_none(forms_view(forms@), p);
    }
    false
}

/// Whether a type is exported among the forms.
pub fn type_exported(forms: &Vec<ExternalForm>, id: &Id) -> (found: bool)
    ensures
        found == exports_type(forms_view(forms@), id@),
{
    let ghost p = exports(id@);
    let mut i: usize = 0;
    while i < forms.len()
        invariant
            i <= forms.len(),
            p == exports(id@),
            forall|j: int| 0 <= j < i ==> !p(#[trigger] forms_view(forms@)[j]),
        decreases forms.len() - i,
    {
        match &forms[i] {
            ExternalForm::ExportType(ids) => {
                if contains_id(ids, id) {
                    proof {
                        lemma_first_where_at(forms_view(forms@), p, i as int);
                    }
                    return true;
                }
            },
            _ => {},
        }
        i = i + 1;
    }
    proof {
        lemma_first_where_none(forms_view(forms@), p);
    }
    false
}

/// Whether each type of a list is well shaped.
pub fn are_well_shaped(ts: &Vec<Type>) -> (ok: bool)
    ensures
        ok == all_well_shaped(types_view(ts@)),
    decreases ts,
{
    let mut i: usize = 0;
    while i < ts.len()
        invariant
            i <= ts.len(),
            forall|j: int| 0 <= j < i ==> well_shaped(#[trigger] types_view(ts@)[j]),
        decreases ts.len() - i,
    {
        if !is_well_shaped(&ts[i]) {
            proof {
                assert(!well_shaped(types_view(ts@)[i as int]));
            }
            return false;
        }
        i = i + 1;
    }
    true
}

/// Whether each head of a type expression has the arguments it can have.
pub fn is_well_shaped(t: &Type) -> (ok: bool)
    ensures
        ok == well_shaped(t@),
    decreases t,
{
    proof {
        lemma_type_view_args(*t);
    }
    if t.args.len() > u32::MAX as usize {
        return false;
    }
    let n = t.args.len();
    let head_ok = match &t.head {
        Head::Builtin(_) => n == 0,
        Head::AtomLit(_) => n == 0,
        Head::Var(_) => n == 0,
        Head::List => n == 1,
        Head::Fun => n >= 1,
        _ => true,
    };
    head_ok && are_well_shaped(&t.args)
}

/// Expanding keeps the shape.
pub proof fn lemma_expand_keeps_shape(module: Seq<char>, t: TypeV)
    requires
        well_shaped(t),
    ensures
        well_shaped(expand_type(module, t)),
    decreases t,
{
    let e = expand_type(module, t);
    assert forall|i: int| 0 <= i < e.args.len() implies well_shaped(#[trigger] e.args[i]) by {
        lemma_expand_keeps_shape(module, t.args[i]);
    }
}

/// The types of a list, expanded.
pub fn expand_all(module: &str, ts: &Vec<Type>) -> (r: Vec<Type>)
    ensures
        types_view(r@) == expand_types(module@, types_view(ts@)),
    decreases ts,
{
    let mut r: Vec<Type> = Vec::new();
    let mut i: usize = 0;
    while i < ts.len()
        invariant
            i <= ts.len(),
            r@.len() == i,
            forall|j: int| 0 <= j < i ==> (#[trigger] r@[j])@ == expand_type(module@, ts@[j]@),
        decreases ts.len() - i,
    {
        r.push(expand(module, &ts[i]));
        i = i + 1;
    }
    proof {
        assert(types_view(r@) =~= expand_types(module@, types_view(ts@)));
    }
    r
}

/// A type expression with its references to types of the same module made
/// references to types of `module`.
pub fn expand(module: &str, t: &Type) -> (r: Type)
    ensures
        r@ == expand_type(module@, t@),
    decreases t,
{
    let head = match &t.head {
        Head::Local(name) => Head::Remote(String::from_str(module), name.clone()),
        h => h.clone(),
    };
    let args = expand_all(module, &t.args);
    let r = Type { head, args };
    proof {
        lemma_type_view_args(*t);
        lemma_type_view_args(r);
        assert(r@.args =~= expand_type(module@, t@).args);
    }
    r
}

/// `all_resolve`, for the types of a list.
pub fn all_resolve_in(db: &mut Store, project_id: ProjectId, module: &str, ts: &Vec<Type>) -> (r:
    Result<bool, Error>)
    requires
        old(db).wf(),
    ensures
        final(db).wf(),
        final(db).extends(*old(db)),
        flag_view(r) == all_resolve(
            project_converted(old(db).inputs(), project_id),
            module@,
            types_view(ts@),
            0,
        ),
    decreases ts,
{
    let ghost start = *db;
    let ghost env = project_converted(db.inputs(), project_id);
    let mut i: usize = 0;
    proof {
        db.lemma_extends_refl();
    }
    while i < ts.len()
        invariant
            i <= ts.len(),
            db.wf(),
            db.extends(start),
            start == *old(db),
            env == project_converted(start.inputs(), project_id),
            all_resolve(env, module@, types_view(ts@), 0) == all_resolve(
                env,
                module@,
                types_view(ts@),
                i as nat,
            ),
        decreases ts.len() - i,
    {
        let ghost mid = *db;
        proof {
            db.lemma_extends(start);
        }
        let one = resolves_in(db, project_id, module, &ts[i]);
        proof {
            db.lemma_extends_trans(mid, start);
        }
        match one {
            Ok(true) => {},
            other => {
                return other;
            },
        }
        i = i + 1;
    }
    Ok(true)
}

/// Whether every type that `t` names can be named from `module`.
pub fn resolves_in(db: &mut Store, project_id: ProjectId, module: &str, t: &Type) -> (r: Result<
    bool,
    Error,
>)
    requires
        old(db).wf(),
    ensures
        final(db).wf(),
        final(db).extends(*old(db)),
        flag_view(r) == resolves(project_converted(old(db).inputs(), project_id), module@, t@),
    decreases t,
{
    let ghost start = *db;
    proof {
        lemma_type_view_args(*t);
        db.lemma_extends_refl();
    }
    let here: bool = match &t.head {
        Head::Remote(m, name) if t.args.len() <= u32::MAX as usize => {
            match converted_stub(db, project_id, m.as_str()) {
                Err(e) => {
                    if e.pending() {
                        return Err(e);
                    }
                    return Err(Error::TypeConversionError(m.clone()));
                },
                Ok(ast) => {
                    let id = Id { name: name.clone(), arity: t.args.len() as u32 };
                    proof {
                        assert(referenced(t@).unwrap().id() == id@);
                    }
                    type_declared(&ast.forms, &id) && (same_text(m.as_str(), module)
                        || type_exported(&ast.forms, &id))
                },
            }
        },
        _ => true,
    };
    if !here {
        return Ok(false);
    }
    let ghost mid = *db;
    proof {
        db.lemma_extends(start);
    }
    let r = all_resolve_in(db, project_id, module, &t.args);
    proof {
        db.lemma_extends_trans(mid, start);
    }
    r
}

/// Adds to `seen` the identifiers of `ids` that it does not hold yet.
pub fn add_new(seen: &mut Vec<Id>, ids: &Vec<Id>)
    ensures
        ids_view(final(seen)@) == add_new_ids(ids_view(old(seen)@), ids_view(ids@), ids@.len()),
{
    let ghost before = ids_view(seen@);
    let mut i: usize = 0;
    while i < ids.len()
        invariant
            i <= ids.len(),
            ids_view(seen@) == add_new_ids(before, ids_view(ids@), i as nat),
        decreases ids.len() - i,
    {
        let ghost so_far = ids_view(seen@);
        if !contains_id(seen, &ids[i]) {
            seen.push(ids[i].clone());
            proof {
                assert(ids_view(seen@) =~= so_far.push(ids@[i as int]@));
            }
        }
        i = i + 1;
    }
}

/// The types of the fields of a record.
fn types_of_fields(fields: &Vec<RecField>) -> (tys: Vec<Type>)
    ensures
        types_view(tys@) == field_types(views(fields@)),
{
    let mut tys: Vec<Type> = Vec::new();
    let mut i: usize = 0;
    while i < fields.len()
        invariant
            i <= fields.len(),
            tys@.len() == i,
            forall|j: int| 0 <= j < i ==> (#[trigger] tys@[j])@ == fields@[j].ty@,
        decreases fields.len() - i,
    {
        tys.push(fields[i].ty.clone());
        i = i + 1;
    }
    proof {
        assert(types_view(tys@) =~= field_types(views(fields@)));
    }
    tys
}

/// The fields with the given types in place of their own.
fn fields_with_types(fields: &Vec<RecField>, tys: &Vec<Type>) -> (r: Vec<RecField>)
    requires
        tys@.len() == fields@.len(),
    ensures
        views(r@) == with_field_types(views(fields@), types_view(tys@)),
{
    let mut r: Vec<RecField> = Vec::new();
    let mut i: usize = 0;
    while i < fields.len()
        invariant
            i <= fields.len(),
            tys@.len() == fields@.len(),
            r@.len() == i,
            forall|j: int|
                0 <= j < i ==> (#[trigger] r@[j])@ == (fields@[j].name@, tys@[j]@),
        decreases fields.len() - i,
    {
        r.push(RecField { name: fields[i].name.clone(), ty: tys[i].clone() });
        i = i + 1;
    }
    proof {
        assert(views(r@) =~= with_field_types(views(fields@), types_view(tys@)));
    }
    r
}

/// Adds to a stub what one form says.
pub fn expand_one(db: &mut Store, project_id: ProjectId, stub: &mut ModuleStub, form: &ExternalForm) -> (r:
    Result<(), Error>)
    requires
        old(db).wf(),
    ensures
        final(db).wf(),
        final(db).extends(*old(db)),
        match r {
            Ok(()) => expand_form(
                project_converted(old(db).inputs(), project_id),
                old(stub)@,
                form@,
            ) == Ok::<crate::stub::ModuleStubV, ErrorV>(final(stub)@),
            Err(e) => expand_form(
                project_converted(old(db).inputs(), project_id),
                old(stub)@,
                form@,
            ) == Err::<crate::stub::ModuleStubV, ErrorV>(e@),
        },
{
    let ghost env = project_converted(db.inputs(), project_id);
    let ghost before = stub@;
    proof {
        db.lemma_extends_refl();
    }
    match form {
        ExternalForm::TypeDecl(d) => {
            if !is_well_shaped(&d.body) || type_position(&stub.types, &d.id).is_some() {
                return Err(Error::TypeConversionError(d.id.name.clone()));
            }
            let body = expand(stub.module.as_str(), &d.body);
            proof {
                lemma_expand_keeps_shape(stub.module@, d.body@);
            }
            match resolves_in(db, project_id, stub.module.as_str(), &body) {
                Err(e) => Err(e),
                Ok(false) => Ok(()),
                Ok(true) => {
                    stub.types.push(
                        TypeDecl { id: d.id.clone(), params: clone_strings(&d.params), body },
                    );
                    proof {
                        assert(stub@.types =~= before.types.push(
                            crate::form::TypeDeclV {
                                id: d@.id,
                                params: d@.params,
                                body: expand_type(before.module, d@.body),
                            },
                        ));
                    }
                    Ok(())
                },
            }
        },
        ExternalForm::FunSpec(s) => {
            if s.types.len() == 0 || !are_well_shaped(&s.types) || spec_position(
                &stub.specs,
                &s.id,
            ).is_some() || overloaded_position(&stub.overloaded_specs, &s.id).is_some() {
                return Err(Error::TypeConversionError(s.id.name.clone()));
            }
            let mut tys = expand_all(stub.module.as_str(), &s.types);
            proof {
                assert forall|i: int| 0 <= i < tys@.len() implies well_shaped(
                    #[trigger] types_view(tys@)[i],
                ) by {
                    lemma_expand_keeps_shape(stub.module@, types_view(s.types@)[i]);
                }
            }
            match all_resolve_in(db, project_id, stub.module.as_str(), &tys) {
                Err(e) => Err(e),
                Ok(false) => Ok(()),
                Ok(true) => {
                    if tys.len() == 1 {
                        let ghost tv = types_view(tys@);
                        let ty = tys.pop().unwrap();
                        proof {
                            assert(ty@ == tv[0]);
                        }
                        stub.specs.push(FunSpec { id: s.id.clone(), ty });
                        proof {
                            assert(stub@.specs =~= before.specs.push(
                                crate::form::FunSpecV { id: s@.id, ty: tv[0] },
                            ));
                        }
                    } else {
                        let ghost tv = types_view(tys@);
                        stub.overloaded_specs.push(OverloadedFunSpec { id: s.id.clone(), tys });
                        proof {
                            assert(stub@.overloaded_specs =~= before.overloaded_specs.push(
                                crate::form::SignaturesV { id: s@.id, tys: tv },
                            ));
                        }
                    }
                    Ok(())
                },
            }
        },
        ExternalForm::Callback(c) => {
            if !are_well_shaped(&c.tys) {
                return Err(Error::TypeConversionError(c.id.name.clone()));
            }
            let tys = expand_all(stub.module.as_str(), &c.tys);
            proof {
                assert forall|i: int| 0 <= i < tys@.len() implies well_shaped(
                    #[trigger] types_view(tys@)[i],
                ) by {
                    lemma_expand_keeps_shape(stub.module@, types_view(c.tys@)[i]);
                }
            }
            match all_resolve_in(db, project_id, stub.module.as_str(), &tys) {
                Err(e) => Err(e),
                Ok(false) => Ok(()),
                Ok(true) => {
                    let ghost tv = types_view(tys@);
                    stub.callbacks.push(Callback { id: c.id.clone(), tys });
                    proof {
                        assert(stub@.callbacks =~= before.callbacks.push(
                            crate::form::SignaturesV { id: c@.id, tys: tv },
                        ));
                    }
                    Ok(())
                },
            }
        },
        ExternalForm::OptionalCallbacks(ids) => {
            add_new(&mut stub.optional_callbacks, ids);
            Ok(())
        },
        ExternalForm::RecDecl(r) => {
            let field_tys = types_of_fields(&r.fields);
            if !are_well_shaped(&field_tys) || record_position(&stub.records, &r.name).is_some() {
                return Err(Error::TypeConversionError(r.name.clone()));
            }
            let tys = expand_all(stub.module.as_str(), &field_tys);
            proof {
                assert forall|i: int| 0 <= i < tys@.len() implies well_shaped(
                    #[trigger] types_view(tys@)[i],
                ) by {
                    lemma_expand_keeps_shape(stub.module@, types_view(field_tys@)[i]);
                }
            }
            match all_resolve_in(db, project_id, stub.module.as_str(), &tys) {
                Err(e) => Err(e),
                Ok(false) => Ok(()),
                Ok(true) => {
                    let fields = fields_with_types(&r.fields, &tys);
                    stub.records.push(RecDecl { name: r.name.clone(), fields });
                    proof {
                        assert(stub@.records =~= before.records.push(
                            crate::form::RecDeclV {
                                name: r@.name,
                                fields: with_field_types(r@.fields, types_view(tys@)),
                            },
                        ));
                    }
                    Ok(())
                },
            }
        },
        _ => Ok(()),
    }
}

} // verus!
