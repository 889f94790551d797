//! Stage 4: which declarations stand on declarations that exist and are
//! productive, however far the references lead.

use crate::contractivity::is_visited;
use crate::contractivity::reference_of;
use crate::contractivity::visited_and;
use crate::db::contractive_stub;
use crate::error::Error;
use crate::error::ErrorV;
use crate::expand::flag_view;
use crate::form::lemma_type_view_args;
use crate::form::types_view;
use crate::form::Callback;
use crate::form::FunSpec;
use crate::form::FunSpecV;
use crate::form::OverloadedFunSpec;
use crate::form::RecDecl;
use crate::form::RecDeclV;
use crate::form::SignaturesV;
use crate::form::Type;
use crate::form::TypeDecl;
use crate::form::TypeDeclV;
use crate::ids::clone_ids;
use crate::ids::Id;
use crate::ids::ProjectId;
use crate::ids::RemoteId;
use crate::pipeline::all_valid;
use crate::pipeline::bodies;
use crate::pipeline::gather;
use crate::pipeline::gather_all;
use crate::pipeline::is_foreign;
use crate::pipeline::holds_foreign;
use crate::pipeline::record_types;
use crate::pipeline::signature_types;
use crate::pipeline::spec_types;
use crate::pipeline::stub_types;
use crate::form::clone_types;
use crate::seqs::lemma_first_where_at;
use crate::seqs::lemma_first_where_none;
use crate::stub::ForeignDecl;
use crate::pipeline::declared;
use crate::pipeline::field_types;
use crate::pipeline::project_contractive;
use crate::pipeline::project_converted;
use crate::pipeline::transitive_of;
use crate::pipeline::valid;
use crate::pipeline::valid_records;
use crate::pipeline::valid_signatures;
use crate::pipeline::valid_specs;
use crate::pipeline::valid_types;
use crate::pipeline::EXPANSION_LIMIT;
use crate::seqs::views;
use crate::store::Store;
use crate::stub::callbacks_view;
use crate::stub::fun_specs_view;
use crate::stub::overloaded_view;
use crate::stub::rec_decls_view;
use crate::stub::type_decls_view;
use crate::stub::type_position;
use crate::stub::ModuleStub;
use crate::stub::ModuleStubV;
use crate::stub::VStub;
use vstd::prelude::*;

verus! {

/// `all_valid`, for the types of a list.
pub fn all_valid_in(
    db: &mut Store,
    project_id: ProjectId,
    fuel: usize,
    visited: &Vec<RemoteId>,
    ts: &Vec<Type>,
) -> (r: Result<bool, Error>)
    requires
        old(db).wf(),
    ensures
        final(db).wf(),
        final(db).extends(*old(db)),
        flag_view(r) == all_valid(
            project_contractive(project_converted(old(db).inputs(), project_id)),
            fuel as nat,
            views(visited@),
            types_view(ts@),
            0,
        ),
    decreases fuel, ts,
{
    let ghost start = *db;
    let ghost stubs = project_contractive(project_converted(db.inputs(), project_id));
    let mut i: usize = 0;
    proof {
        db.lemma_extends_refl();
    }
    while i < ts.len()
        invariant
            i <= ts.len(),
            db.wf(),
            db.extends(start),
            start == *old(db),
            stubs == project_contractive(project_converted(start.inputs(), project_id)),
            all_valid(stubs, fuel as nat, views(visited@), types_view(ts@), 0) == all_valid(
                stubs,
                fuel as nat,
                views(visited@),
                types_view(ts@),
                i as nat,
            ),
        decreases ts.len() - i,
    {
        let ghost mid = *db;
        proof {
            db.lemma_extends(start);
        }
        let one = valid_in(db, project_id, fuel, visited, &ts[i]);
        proof {
            db.lemma_extends_trans(mid, start);
        }
        match one {
            Ok(true) => {},
            other => {
                return other;
            },
        }
        i = i + 1;
    }
    Ok(true)
}

/// Whether every type that `t` names, and every type that those name, and
/// so on, is declared and productive.
pub fn valid_in(
    db: &mut Store,
    project_id: ProjectId,
    fuel: usize,
    visited: &Vec<RemoteId>,
    t: &Type,
) -> (r: Result<bool, Error>)
    requires
        old(db).wf(),
    ensures
        final(db).wf(),
        final(db).extends(*old(db)),
        flag_view(r) == valid(
            project_contractive(project_converted(old(db).inputs(), project_id)),
            fuel as nat,
            views(visited@),
            t@,
        ),
    decreases fuel, t,
{
    let ghost start = *db;
    proof {
        lemma_type_view_args(*t);
        db.lemma_extends_refl();
    }
    match reference_of(t) {
        None => {},
        Some(rid) => {
            if !is_visited(visited, &rid) {
                let v = match contractive_stub(db, project_id, rid.module.as_str()) {
                    Err(e) => {
                        if e.pending() {
                            return Err(e);
                        }
                        return Ok(false);
                    },
                    Ok(v) => v,
                };
                let id = Id { name: rid.name.clone(), arity: rid.arity };
                let ghost mid = *db;
                proof {
                    db.lemma_extends(start);
                }
                match type_position(&v.stub.types, &id) {
                    None => {
                        return Ok(false);
                    },
                    Some(i) => {
                        if !(i < v.productive.len() && v.productive[i]) || fuel == 0 {
                            return Ok(false);
                        }
                        let deeper = visited_and(visited, rid);
                        let body = valid_in(db, project_id, fuel - 1, &deeper, &v.stub.types[i].body);
                        proof {
                            db.lemma_extends_trans(mid, start);
                        }
                        match body {
                            Ok(true) => {},
                            other => {
                                return other;
                            },
                        }
                    },
                }
            }
        },
    }
    let ghost mid2 = *db;
    proof {
        db.lemma_extends(start);
    }
    let r = all_valid_in(db, project_id, fuel, visited, &t.args);
    proof {
        db.lemma_extends_trans(mid2, start);
    }
    r
}

/// The types of the fields of a record.
fn fields_types(d: &RecDecl) -> (tys: Vec<Type>)
    ensures
        types_view(tys@) == field_types(d@.fields),
{
    let mut tys: Vec<Type> = Vec::new();
    let mut i: usize = 0;
    while i < d.fields.len()
        invariant
            i <= d.fields.len(),
            tys@.len() == i,
            forall|j: int| 0 <= j < i ==> (#[trigger] tys@[j])@ == d.fields@[j].ty@,
        decreases d.fields.len() - i,
    {
        tys.push(d.fields[i].ty.clone());
        i = i + 1;
    }
    proof {
        assert(types_view(tys@) =~= field_types(d@.fields));
    }
    tys
}

/// The stub that is left of a contractive stub when each declaration that
/// stands on a missing or unproductive type is taken out.
pub fn check(db: &mut Store, project_id: ProjectId, v: &VStub) -> (r: Result<ModuleStub, Error>)
    requires
        old(db).wf(),
    ensures
        final(db).wf(),
        final(db).extends(*old(db)),
        match r {
            Ok(stub) => transitive_of(
                project_contractive(project_converted(old(db).inputs(), project_id)),
                v@,
            ) == Ok::<ModuleStubV, ErrorV>(stub@),
            Err(e) => transitive_of(
                project_contractive(project_converted(old(db).inputs(), project_id)),
                v@,
            ) == Err::<ModuleStubV, ErrorV>(e@),
        },
{
    let ghost start = *db;
    let ghost stubs = project_contractive(project_converted(db.inputs(), project_id));
    let empty: Vec<RemoteId> = Vec::new();
    proof {
        db.lemma_extends_refl();
        assert(views(empty@) =~= Seq::<crate::ids::RemoteIdV>::empty());
    }
    let mut types: Vec<TypeDecl> = Vec::new();
    let mut i: usize = 0;
    proof {
        assert(type_decls_view(types@) =~= Seq::<TypeDeclV>::empty());
    }
    while i < v.stub.types.len()
        invariant
            i <= v.stub.types.len(),
            db.wf(),
            db.extends(start),
            start == *old(db),
            stubs == project_contractive(project_converted(start.inputs(), project_id)),
            valid_types(stubs, v@, i as nat) == Ok::<Seq<TypeDeclV>, ErrorV>(type_decls_view(types@)),
        decreases v.stub.types.len() - i,
    {
        let ghost mid = *db;
        let ghost so_far = type_decls_view(types@);
        proof {
            db.lemma_extends(start);
        }
        let d = &v.stub.types[i];
        proof {
            assert(v@.stub.types[i as int] == d@);
        }
        if i < v.productive.len() && v.productive[i] {
            let mut visited: Vec<RemoteId> = Vec::new();
            visited.push(
                RemoteId { module: v.stub.module.clone(), name: d.id.name.clone(), arity: d.id.arity },
            );
            proof {
                assert(views(visited@) =~= seq![declared(v@.stub.module, d@.id)]);
            }
            let one = valid_in(db, project_id, EXPANSION_LIMIT, &visited, &d.body);
            proof {
                db.lemma_extends_trans(mid, start);
            }
            match one {
                Err(e) => {
                    proof {
                        crate::pipeline::lemma_valid_types_error_stays(stubs, v@, (i + 1) as nat, v@.stub.types.len());
                    }
                    return Err(e);
                },
                Ok(true) => {
                    types.push(d.clone());
                    proof {
                        assert(type_decls_view(types@) =~= so_far.push(d@));
                    }
                },
                Ok(false) => {},
            }
        }
        i = i + 1;
    }
    let mut records: Vec<RecDecl> = Vec::new();
    let mut i: usize = 0;
    proof {
        assert(rec_decls_view(records@) =~= Seq::<RecDeclV>::empty());
    }
    while i < v.stub.records.len()
        invariant
            i <= v.stub.records.len(),
            db.wf(),
            db.extends(start),
            start == *old(db),
            views(empty@) == Seq::<crate::ids::RemoteIdV>::empty(),
            stubs == project_contractive(project_converted(start.inputs(), project_id)),
            valid_types(stubs, v@, v@.stub.types.len()) == Ok::<Seq<TypeDeclV>, ErrorV>(
                type_decls_view(types@),
            ),
            valid_records(stubs, v@.stub.records, i as nat) == Ok::<Seq<RecDeclV>, ErrorV>(
                rec_decls_view(records@),
            ),
        decreases v.stub.records.len() - i,
    {
        let ghost mid = *db;
        let ghost so_far = rec_decls_view(records@);
        proof {
            db.lemma_extends(start);
        }
        let d = &v.stub.records[i];
        proof {
            assert(v@.stub.records[i as int] == d@);
        }
        let tys = fields_types(d);
        let one = all_valid_in(db, project_id, EXPANSION_LIMIT, &empty, &tys);
        proof {
            db.lemma_extends_trans(mid, start);
        }
        match one {
            Err(e) => {
                proof {
                    crate::pipeline::lemma_valid_records_error_stays(stubs, v@.stub.records, (i + 1) as nat, v@.stub.records.len());
                }
                return Err(e);
            },
            Ok(true) => {
                records.push(d.clone());
                proof {
                    assert(rec_decls_view(records@) =~= so_far.push(d@));
                }
            },
            Ok(false) => {},
        }
        i = i + 1;
    }
    let mut specs: Vec<FunSpec> = Vec::new();
    let mut i: usize = 0;
    proof {
        assert(fun_specs_view(specs@) =~= Seq::<FunSpecV>::empty());
    }
    while i < v.stub.specs.len()
        invariant
            i <= v.stub.specs.len(),
            db.wf(),
            db.extends(start),
            start == *old(db),
            views(empty@) == Seq::<crate::ids::RemoteIdV>::empty(),
            stubs == project_contractive(project_converted(start.inputs(), project_id)),
            valid_types(stubs, v@, v@.stub.types.len()) == Ok::<Seq<TypeDeclV>, ErrorV>(
                type_decls_view(types@),
            ),
            valid_records(stubs, v@.stub.records, v@.stub.records.len()) == Ok::<
                Seq<RecDeclV>,
                ErrorV,
            >(rec_decls_view(records@)),
            valid_specs(stubs, v@.stub.specs, i as nat) == Ok::<Seq<FunSpecV>, ErrorV>(
                fun_specs_view(specs@),
            ),
        decreases v.stub.specs.len() - i,
    {
        let ghost mid = *db;
        let ghost so_far = fun_specs_view(specs@);
        proof {
            db.lemma_extends(start);
        }
        let d = &v.stub.specs[i];
        proof {
            assert(v@.stub.specs[i as int] == d@);
        }
        let one = valid_in(db, project_id, EXPANSION_LIMIT, &empty, &d.ty);
        proof {
            db.lemma_extends_trans(mid, start);
        }
        match one {
            Err(e) => {
                proof {
                    crate::pipeline::lemma_valid_specs_error_stays(stubs, v@.stub.specs, (i + 1) as nat, v@.stub.specs.len());
                }
                return Err(e);
            },
            Ok(true) => {
                specs.push(d.clone());
                proof {
                    assert(fun_specs_view(specs@) =~= so_far.push(d@));
                }
            },
            Ok(false) => {},
        }
        i = i + 1;
    }
    let mut overloaded: Vec<OverloadedFunSpec> = Vec::new();
    let mut i: usize = 0;
    proof {
        assert(overloaded_view(overloaded@) =~= Seq::<SignaturesV>::empty());
    }
    while i < v.stub.overloaded_specs.len()
        invariant
            i <= v.stub.overloaded_specs.len(),
            db.wf(),
            db.extends(start),
            start == *old(db),
            views(empty@) == Seq::<crate::ids::RemoteIdV>::empty(),
            stubs == project_contractive(project_converted(start.inputs(), project_id)),
            valid_types(stubs, v@, v@.stub.types.len()) == Ok::<Seq<TypeDeclV>, ErrorV>(
                type_decls_view(types@),
            ),
            valid_records(stubs, v@.stub.records, v@.stub.records.len()) == Ok::<
                Seq<RecDeclV>,
                ErrorV,
            >(rec_decls_view(records@)),
            valid_specs(stubs, v@.stub.specs, v@.stub.specs.len()) == Ok::<Seq<FunSpecV>, ErrorV>(
                fun_specs_view(specs@),
            ),
            valid_signatures(stubs, v@.stub.overloaded_specs, i as nat) == Ok::<
                Seq<SignaturesV>,
                ErrorV,
            >(overloaded_view(overloaded@)),
        decreases v.stub.overloaded_specs.len() - i,
    {
        let ghost mid = *db;
        let ghost so_far = overloaded_view(overloaded@);
        proof {
            db.lemma_extends(start);
        }
        let d = &v.stub.overloaded_specs[i];
        proof {
            assert(v@.stub.overloaded_specs[i as int] == d@);
        }
        let one = all_valid_in(db, project_id, EXPANSION_LIMIT, &empty, &d.tys);
        proof {
            db.lemma_extends_trans(mid, start);
        }
        match one {
            Err(e) => {
                proof {
                    crate::pipeline::lemma_valid_signatures_error_stays(stubs, v@.stub.overloaded_specs, (i + 1) as nat, v@.stub.overloaded_specs.len());
                }
                return Err(e);
            },
            Ok(true) => {
                overloaded.push(d.clone());
                proof {
                    assert(overloaded_view(overloaded@) =~= so_far.push(d@));
                }
            },
            Ok(false) => {},
        }
        i = i + 1;
    }
    let mut callbacks: Vec<Callback> = Vec::new();
    let mut i: usize = 0;
    proof {
        assert(callbacks_view(callbacks@) =~= Seq::<SignaturesV>::empty());
    }
    while i < v.stub.callbacks.len()
        invariant
            i <= v.stub.callbacks.len(),
            db.wf(),
            db.extends(start),
            start == *old(db),
            views(empty@) == Seq::<crate::ids::RemoteIdV>::empty(),
            stubs == project_contractive(project_converted(start.inputs(), project_id)),
            valid_types(stubs, v@, v@.stub.types.len()) == Ok::<Seq<TypeDeclV>, ErrorV>(
                type_decls_view(types@),
            ),
            valid_records(stubs, v@.stub.records, v@.stub.records.len()) == Ok::<
                Seq<RecDeclV>,
                ErrorV,
            >(rec_decls_view(records@)),
            valid_specs(stubs, v@.stub.specs, v@.stub.specs.len()) == Ok::<Seq<FunSpecV>, ErrorV>(
                fun_specs_view(specs@),
            ),
            valid_signatures(
                stubs,
                v@.stub.overloaded_specs,
                v@.stub.overloaded_specs.len(),
            ) == Ok::<Seq<SignaturesV>, ErrorV>(overloaded_view(overloaded@)),
            valid_signatures(stubs, v@.stub.callbacks, i as nat) == Ok::<Seq<SignaturesV>, ErrorV>(
                callbacks_view(callbacks@),
            ),
        decreases v.stub.callbacks.len() - i,
    {
        let ghost mid = *db;
        let ghost so_far = callbacks_view(callbacks@);
        proof {
            db.lemma_extends(start);
        }
        let d = &v.stub.callbacks[i];
        proof {
            assert(v@.stub.callbacks[i as int] == d@);
        }
        let one = all_valid_in(db, project_id, EXPANSION_LIMIT, &empty, &d.tys);
        proof {
            db.lemma_extends_trans(mid, start);
        }
        match one {
            Err(e) => {
                proof {
                    crate::pipeline::lemma_valid_signatures_error_stays(stubs, v@.stub.callbacks, (i + 1) as nat, v@.stub.callbacks.len());
                }
                return Err(e);
            },
            Ok(true) => {
                callbacks.push(d.clone());
                proof {
                    assert(callbacks_view(callbacks@) =~= so_far.push(d@));
                }
            },
            Ok(false) => {},
        }
        i = i + 1;
    }
    let all = own_types(&types, &records, &specs, &overloaded, &callbacks);
    let mut foreign: Vec<ForeignDecl> = Vec::new();
    let ghost mid = *db;
    proof {
        db.lemma_extends(start);
        assert(views(foreign@) =~= Seq::<(Seq<char>, TypeDeclV)>::empty());
    }
    gather_all_in(db, project_id, v.stub.module.as_str(), EXPANSION_LIMIT, &mut foreign, &all);
    proof {
        db.lemma_extends_trans(mid, start);
    }
    Ok(
        ModuleStub {
            module: v.stub.module.clone(),
            types,
            records,
            specs,
            overloaded_specs: overloaded,
            callbacks,
            optional_callbacks: clone_ids(&v.stub.optional_callbacks),
            foreign,
        },
    )
}

/// All the type expressions of the given declarations, in the order of
/// `stub_types`.
fn own_types(
    types: &Vec<TypeDecl>,
    records: &Vec<RecDecl>,
    specs: &Vec<FunSpec>,
    overloaded: &Vec<OverloadedFunSpec>,
    callbacks: &Vec<Callback>,
) -> (all: Vec<Type>)
    ensures
        types_view(all@) == bodies(type_decls_view(types@), types@.len()) + record_types(
            rec_decls_view(records@),
            records@.len(),
        ) + spec_types(fun_specs_view(specs@), specs@.len()) + signature_types(
            overloaded_view(overloaded@),
            overloaded@.len(),
        ) + signature_types(callbacks_view(callbacks@), callbacks@.len()),
{
    let mut all: Vec<Type> = Vec::new();
    let mut i: usize = 0;
    proof {
        assert(types_view(all@) =~= bodies(type_decls_view(types@), 0));
    }
    while i < types.len()
        invariant
            i <= types.len(),
            types_view(all@) == bodies(type_decls_view(types@), i as nat),
        decreases types.len() - i,
    {
        let ghost before = types_view(all@);
        all.push(types[i].body.clone());
        proof {
            assert(types_view(all@) =~= before.push(types@[i as int]@.body));
        }
        i = i + 1;
    }
    let ghost a = types_view(all@);
    let mut i: usize = 0;
    proof {
        assert(types_view(all@) =~= a + record_types(rec_decls_view(records@), 0));
    }
    while i < records.len()
        invariant
            i <= records.len(),
            types_view(all@) == a + record_types(rec_decls_view(records@), i as nat),
        decreases records.len() - i,
    {
        let ghost before = types_view(all@);
        let mut tys = fields_types(&records[i]);
        let ghost tv = types_view(tys@);
        all.append(&mut tys);
        proof {
            assert(types_view(all@) =~= before + tv);
            assert(rec_decls_view(records@)[i as int] == records@[i as int]@);
            assert(types_view(all@) =~= a + record_types(rec_decls_view(records@), (i + 1) as nat));
        }
        i = i + 1;
    }
    let ghost b = types_view(all@);
    let mut i: usize = 0;
    proof {
        assert(types_view(all@) =~= b + spec_types(fun_specs_view(specs@), 0));
    }
    while i < specs.len()
        invariant
            i <= specs.len(),
            types_view(all@) == b + spec_types(fun_specs_view(specs@), i as nat),
        decreases specs.len() - i,
    {
        let ghost before = types_view(all@);
        all.push(specs[i].ty.clone());
        proof {
            assert(types_view(all@) =~= before.push(specs@[i as int]@.ty));
            assert(types_view(all@) =~= b + spec_types(fun_specs_view(specs@), (i + 1) as nat));
        }
        i = i + 1;
    }
    let ghost c = types_view(all@);
    let mut i: usize = 0;
    proof {
        assert(types_view(all@) =~= c + signature_types(overloaded_view(overloaded@), 0));
    }
    while i < overloaded.len()
        invariant
            i <= overloaded.len(),
            types_view(all@) == c + signature_types(overloaded_view(overloaded@), i as nat),
        decreases overloaded.len() - i,
    {
        let ghost before = types_view(all@);
        let mut tys = clone_types(&overloaded[i].tys);
        let ghost tv = types_view(tys@);
        all.append(&mut tys);
        proof {
            assert(types_view(all@) =~= before + tv);
            assert(overloaded_view(overloaded@)[i as int] == overloaded@[i as int]@);
            assert(types_view(all@) =~= c + signature_types(
                overloaded_view(overloaded@),
                (i + 1) as nat,
            ));
        }
        i = i + 1;
    }
    let ghost d = types_view(all@);
    let mut i: usize = 0;
    proof {
        assert(types_view(all@) =~= d + signature_types(callbacks_view(callbacks@), 0));
    }
    while i < callbacks.len()
        invariant
            i <= callbacks.len(),
            types_view(all@) == d + signature_types(callbacks_view(callbacks@), i as nat),
        decreases callbacks.len() - i,
    {
        let ghost before = types_view(all@);
        let mut tys = clone_types(&callbacks[i].tys);
        let ghost tv = types_view(tys@);
        all.append(&mut tys);
        proof {
            assert(types_view(all@) =~= before + tv);
            assert(callbacks_view(callbacks@)[i as int] == callbacks@[i as int]@);
            assert(types_view(all@) =~= d + signature_types(
                callbacks_view(callbacks@),
                (i + 1) as nat,
            ));
        }
        i = i + 1;
    }
    all
}

/// Whether the declaration of a type is among those held.
fn is_held(acc: &Vec<ForeignDecl>, rid: &RemoteId) -> (held: bool)
    ensures
        held == holds_foreign(views(acc@), rid@),
{
    let ghost p = is_foreign(rid@);
    let mut i: usize = 0;
    while i < acc.len()
        invariant
            i <= acc.len(),
            p == is_foreign(rid@),
            forall|j: int| 0 <= j < i ==> !p(#[trigger] views(acc@)[j]),
        decreases acc.len() - i,
    {
        if acc[i].module == rid.module && acc[i].decl.id.arity == rid.arity && acc[i].decl.id.name
            == rid.name {
            proof {
                lemma_first_where_at(views(acc@), p, i as int);
            }
            return true;
        }
        i = i + 1;
    }
    proof {
        lemma_first_where_none(views(acc@), p);
    }
    false
}

/// `gather_all`, for the types of a list.
fn gather_all_in(
    db: &mut Store,
    project_id: ProjectId,
    own: &str,
    fuel: usize,
    acc: &mut Vec<ForeignDecl>,
    ts: &Vec<Type>,
)
    requires
        old(db).wf(),
    ensures
        final(db).wf(),
        final(db).extends(*old(db)),
        views(final(acc)@) == gather_all(
            project_contractive(project_converted(old(db).inputs(), project_id)),
            own@,
            fuel as nat,
            views(old(acc)@),
            types_view(ts@),
            0,
        ),
    decreases fuel, ts,
{
    let ghost start = *db;
    let ghost stubs = project_contractive(project_converted(db.inputs(), project_id));
    let ghost acc0 = views(acc@);
    let mut i: usize = 0;
    proof {
        db.lemma_extends_refl();
    }
    while i < ts.len()
        invariant
            i <= ts.len(),
            db.wf(),
            db.extends(start),
            start == *old(db),
            stubs == project_contractive(project_converted(start.inputs(), project_id)),
            gather_all(stubs, own@, fuel as nat, acc0, types_view(ts@), 0) == gather_all(
                stubs,
                own@,
                fuel as nat,
                views(acc@),
                types_view(ts@),
                i as nat,
            ),
        decreases ts.len() - i,
    {
        let ghost mid = *db;
        proof {
            db.lemma_extends(start);
        }
        gather_in(db, project_id, own, fuel, acc, &ts[i]);
        proof {
            db.lemma_extends_trans(mid, start);
        }
        i = i + 1;
    }
}

/// Adds to the declarations held those that `t` stands on.
fn gather_in(
    db: &mut Store,
    project_id: ProjectId,
    own: &str,
    fuel: usize,
    acc: &mut Vec<ForeignDecl>,
    t: &Type,
)
    requires
        old(db).wf(),
    ensures
        final(db).wf(),
        final(db).extends(*old(db)),
        views(final(acc)@) == gather(
            project_contractive(project_converted(old(db).inputs(), project_id)),
            own@,
            fuel as nat,
            views(old(acc)@),
            t@,
        ),
    decreases fuel, t,
{
    let ghost start = *db;
    proof {
        lemma_type_view_args(*t);
        db.lemma_extends_refl();
    }
    match reference_of(t) {
        None => {},
        Some(rid) => {
            if !(crate::input::same_text(rid.module.as_str(), own) || is_held(acc, &rid)) {
                match contractive_stub(db, project_id, rid.module.as_str()) {
                    Err(_) => {},
                    Ok(v) => {
                        let id = Id { name: rid.name.clone(), arity: rid.arity };
                        match type_position(&v.stub.types, &id) {
                            None => {},
                            Some(i) => {
                                if fuel != 0 {
                                    let ghost before = views(acc@);
                                    let ghost mid = *db;
                                    proof {
                                        db.lemma_extends(start);
                                    }
                                    acc.push(
                                        ForeignDecl {
                                            module: rid.module.clone(),
                                            decl: v.stub.types[i].clone(),
                                        },
                                    );
                                    proof {
                                        assert(views(acc@) =~= before.push(
                                            (rid@.module, v.stub.types@[i as int]@),
                                        ));
                                    }
                                    gather_in(
                                        db,
                                        project_id,
                                        own,
                                        fuel - 1,
                                        acc,
                                        &v.stub.types[i].body,
                                    );
                                    proof {
                                        db.lemma_extends_trans(mid, start);
                                    }
                                }
                            },
                        }
                    },
                }
            }
        },
    }
    let ghost mid2 = *db;
    proof {
        db.lemma_extends(start);
    }
    gather_all_in(db, project_id, own, fuel, acc, &t.args);
    proof {
        db.lemma_extends_trans(mid2, start);
    }
}

} // verus!
