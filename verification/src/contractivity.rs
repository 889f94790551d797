//! Stage 3: which type declarations always reach a constructor.

use crate::db::expanded_stub;
use crate::error::Error;
use crate::expand::flag_view;
use crate::form::lemma_type_view_args;
use crate::form::types_view;
use crate::form::Head;
use crate::form::Type;
use crate::ids::Id;
use crate::ids::ProjectId;
use crate::ids::RemoteId;
use crate::pipeline::all_productive;
use crate::pipeline::declared;
use crate::pipeline::productive;
use crate::pipeline::project_converted;
use crate::pipeline::project_expanded;
use crate::pipeline::referenced;
use crate::pipeline::verdicts;
use crate::pipeline::EXPANSION_LIMIT;
use crate::seqs::views;
use crate::store::Store;
use crate::stub::type_position;
use crate::stub::ModuleStub;
use vstd::prelude::*;

verus! {

/// Whether a type is among those visited.
pub fn is_visited(visited: &Vec<RemoteId>, id: &RemoteId) -> (found: bool)
    ensures
        found == views(visited@).contains(id@),
{
    let mut i: usize = 0;
    while i < visited.len()
        invariant
            i <= visited.len(),
            forall|j: int| 0 <= j < i ==> visited@[j]@ != id@,
        decreases visited.len() - i,
    {
        if visited[i].same(id) {
            proof {
                assert(views(visited@)[i as int] == id@);
            }
            return true;
        }
        i = i + 1;
    }
    false
}

/// The types visited and one more.
pub fn visited_and(visited: &Vec<RemoteId>, id: RemoteId) -> (r: Vec<RemoteId>)
    ensures
        views(r@) == views(visited@).push(id@),
{
    let mut r: Vec<RemoteId> = Vec::new();
    let mut i: usize = 0;
    while i < visited.len()
        invariant
            i <= visited.len(),
            r@.len() == i,
            forall|j: int| 0 <= j < i ==> (#[trigger] r@[j])@ == visited@[j]@,
        decreases visited.len() - i,
    {
        r.push(visited[i].clone());
        i = i + 1;
    }
    r.push(id);
    proof {
        assert(views(r@) =~= views(visited@).push(id@));
    }
    r
}

/// The type that an expression names, if it names one.
pub fn reference_of(t: &Type) -> (r: Option<RemoteId>)
    ensures
        match r {
            Some(rid) => referenced(t@) == Some(rid@),
            None => referenced(t@).is_none(),
        },
{
    proof {
        lemma_type_view_args(*t);
    }
    match &t.head {
        Head::Remote(module, name) if t.args.len() <= u32::MAX as usize => Some(
            RemoteId { module: module.clone(), name: name.clone(), arity: t.args.len() as u32 },
        ),
        _ => None,
    }
}

/// `all_productive`, for the types of a list.
pub fn all_productive_in(
    db: &mut Store,
    project_id: ProjectId,
    fuel: usize,
    visited: &Vec<RemoteId>,
    ts: &Vec<Type>,
) -> (r: Result<bool, Error>)
    requires
        old(db).wf(),
    ensures
        final(db).wf(),
        final(db).extends(*old(db)),
        flag_view(r) == all_productive(
            project_expanded(project_converted(old(db).inputs(), project_id)),
            fuel as nat,
            views(visited@),
            types_view(ts@),
            0,
        ),
    decreases fuel, ts,
{
    let ghost start = *db;
    let ghost stubs = project_expanded(project_converted(db.inputs(), project_id));
    let mut i: usize = 0;
    proof {
        db.lemma_extends_refl();
    }
    while i < ts.len()
        invariant
            i <= ts.len(),
            db.wf(),
            db.extends(start),
            start == *old(db),
            stubs == project_expanded(project_converted(start.inputs(), project_id)),
            all_productive(stubs, fuel as nat, views(visited@), types_view(ts@), 0)
                == all_productive(stubs, fuel as nat, views(visited@), types_view(ts@), i as nat),
        decreases ts.len() - i,
    {
        let ghost mid = *db;
        proof {
            db.lemma_extends(start);
        }
        let one = productive_in(db, project_id, fuel, visited, &ts[i]);
        proof {
            db.lemma_extends_trans(mid, start);
        }
        match one {
            Ok(true) => {},
            other => {
                return other;
            },
        }
        i = i + 1;
    }
    Ok(true)
}

/// Whether unfolding `t` reaches a constructor before it comes back to a
/// type in `visited`.
pub fn productive_in(
    db: &mut Store,
    project_id: ProjectId,
    fuel: usize,
    visited: &Vec<RemoteId>,
    t: &Type,
) -> (r: Result<bool, Error>)
    requires
        old(db).wf(),
    ensures
        final(db).wf(),
        final(db).extends(*old(db)),
        flag_view(r) == productive(
            project_expanded(project_converted(old(db).inputs(), project_id)),
            fuel as nat,
            views(visited@),
            t@,
        ),
    decreases fuel, t,
{
    let ghost start = *db;
    proof {
        lemma_type_view_args(*t);
        db.lemma_extends_refl();
    }
    match reference_of(t) {
        Some(rid) => {
            if is_visited(visited, &rid) {
                return Ok(false);
            }
            match expanded_stub(db, project_id, rid.module.as_str()) {
                Err(e) => {
                    if e.pending() {
                        return Err(e);
                    }
                },
                Ok(stub) => {
                    let id = Id { name: rid.name.clone(), arity: rid.arity };
                    let ghost mid = *db;
                    proof {
                        db.lemma_extends(start);
                    }
                    match type_position(&stub.types, &id) {
                        None => {},
                        Some(i) => {
                            if fuel == 0 {
                                return Ok(false);
                            }
                            let deeper = visited_and(visited, rid);
                            let body = productive_in(
                                db,
                                project_id,
                                fuel - 1,
                                &deeper,
                                &stub.types[i].body,
                            );
                            proof {
                                db.lemma_extends_trans(mid, start);
                            }
                            match body {
                                Ok(true) => {},
                                other => {
                                    return other;
                                },
                            }
                        },
                    }
                },
            }
            let ghost mid2 = *db;
            proof {
                db.lemma_extends(start);
            }
            let r = all_productive_in(db, project_id, fuel, visited, &t.args);
            proof {
                db.lemma_extends_trans(mid2, start);
            }
            r
        },
        None => match &t.head {
            Head::Union => all_productive_in(db, project_id, fuel, visited, &t.args),
            _ => Ok(true),
        },
    }
}

/// The verdicts for the type declarations of a stub.
pub fn check(db: &mut Store, project_id: ProjectId, stub: &ModuleStub) -> (r: Result<Vec<bool>, Error>)
    requires
        old(db).wf(),
    ensures
        final(db).wf(),
        final(db).extends(*old(db)),
        match r {
            Ok(v) => verdicts(
                project_expanded(project_converted(old(db).inputs(), project_id)),
                stub@,
                stub@.types.len(),
            ) == Ok::<Seq<bool>, crate::error::ErrorV>(v@),
            Err(e) => verdicts(
                project_expanded(project_converted(old(db).inputs(), project_id)),
                stub@,
                stub@.types.len(),
            ) == Err::<Seq<bool>, crate::error::ErrorV>(e@),
        },
{
    let ghost start = *db;
    let ghost stubs = project_expanded(project_converted(db.inputs(), project_id));
    let mut out: Vec<bool> = Vec::new();
    let mut i: usize = 0;
    proof {
        db.lemma_extends_refl();
    }
    while i < stub.types.len()
        invariant
            i <= stub.types.len(),
            db.wf(),
            db.extends(start),
            start == *old(db),
            stubs == project_expanded(project_converted(start.inputs(), project_id)),
            verdicts(stubs, stub@, i as nat) == Ok::<Seq<bool>, crate::error::ErrorV>(out@),
        decreases stub.types.len() - i,
    {
        let ghost mid = *db;
        proof {
            db.lemma_extends(start);
        }
        let d = &stub.types[i];
        let mut visited: Vec<RemoteId> = Vec::new();
        visited.push(
            RemoteId { module: stub.module.clone(), name: d.id.name.clone(), arity: d.id.arity },
        );
        proof {
            assert(views(visited@) =~= seq![declared(stub@.module, d@.id)]);
            assert(stub@.types[i as int] == d@);
        }
        let one = productive_in(db, project_id, EXPANSION_LIMIT, &visited, &d.body);
        proof {
            db.lemma_extends_trans(mid, start);
        }
        match one {
            Err(e) => {
                proof {
                    crate::pipeline::lemma_verdicts_error_stays(
                        stubs,
                        stub@,
                        (i + 1) as nat,
                        stub@.types.len(),
                    );
                }
                return Err(e);
            },
            Ok(v) => {
                out.push(v);
            },
        }
        i = i + 1;
    }
    Ok(out)
}

} // verus!
