//! The modules that a module's stub stands on, and their files.

use crate::db::converted_stub;
use crate::form::lemma_type_view_args;
use crate::form::types_view;
use crate::form::ExternalForm;
use crate::form::ExternalFormV;
use crate::form::Head;
use crate::form::RecField;
use crate::form::Type;
use crate::frame::agree;
use crate::frame::all_within;
use crate::frame::closed;
use crate::frame::form_within;
use crate::frame::forms_within;
use crate::frame::lemma_within_grows;
use crate::frame::within;
use crate::ids::FileId;
use crate::ids::ProjectId;
use crate::input::same_text;
use crate::input::Inputs;
use crate::input::ModuleEntry;
use crate::pipeline::expand_type;
use crate::pipeline::expand_types;
use crate::pipeline::field_types;
use crate::pipeline::project_converted;
use crate::pipeline::referenced;
use crate::pipeline::spec_converted_stub;
use crate::pipeline::spec_erl_ast_bytes;
use crate::pipeline::spec_from_beam_path;
use crate::seqs::first_where;
use crate::seqs::lemma_first_where;
use crate::seqs::views;
use crate::store::bears_on;
use crate::store::clear_of;
use crate::store::framed;
use crate::store::module_files;
use crate::store::spec_contractive_stub;
use crate::store::spec_expanded_stub;
use crate::store::spec_transitive_stub;
use crate::store::Store;
use vstd::prelude::*;
use vstd::string::StringExecFns;

verus! {

/// How many modules a stub may stand on and still be kept with its dependencies.
pub const DEPENDENCY_LIMIT: usize = 4096;

/// `more` holds what `ds` holds, at the same places.
pub open spec fn grown(ds: Seq<Seq<char>>, more: Seq<Seq<char>>) -> bool {
    ds.len() <= more.len() && forall|j: int| 0 <= j < ds.len() ==> more[j] == #[trigger] ds[j]
}

/// What a list holds, a list grown from it holds.
pub proof fn lemma_grown_contains(ds: Seq<Seq<char>>, more: Seq<Seq<char>>)
    requires
        grown(ds, more),
    ensures
        forall|x: Seq<char>| ds.contains(x) ==> more.contains(x),
{
    assert forall|x: Seq<char>| ds.contains(x) implies more.contains(x) by {
        let j = choose|j: int| 0 <= j < ds.len() && ds[j] == x;
        assert(more[j] == x);
    }
}

/// Types within a list are within a list grown from it.
pub proof fn lemma_all_within_grows(ts: Seq<crate::form::TypeV>, ds: Seq<Seq<char>>, more: Seq<Seq<char>>)
    requires
        all_within(ts, ds),
        grown(ds, more),
    ensures
        all_within(ts, more),
{
    lemma_grown_contains(ds, more);
    assert forall|i: int| 0 <= i < ts.len() implies within(#[trigger] ts[i], more) by {
        lemma_within_grows(ts[i], ds, more);
    }
}

/// A form within a list is within a list grown from it.
pub proof fn lemma_form_within_grows(
    module: Seq<char>,
    form: ExternalFormV,
    ds: Seq<Seq<char>>,
    more: Seq<Seq<char>>,
)
    requires
        form_within(module, form, ds),
        grown(ds, more),
    ensures
        form_within(module, form, more),
{
    lemma_grown_contains(ds, more);
    match form {
        ExternalFormV::TypeDecl(d) => {
            lemma_within_grows(expand_type(module, d.body), ds, more);
        },
        ExternalFormV::FunSpec(s) => {
            lemma_all_within_grows(expand_types(module, s.tys), ds, more);
        },
        ExternalFormV::Callback(c) => {
            lemma_all_within_grows(expand_types(module, c.tys), ds, more);
        },
        ExternalFormV::RecDecl(r) => {
            lemma_all_within_grows(expand_types(module, field_types(r.fields)), ds, more);
        },
        _ => {},
    }
}

/// Whether the forms of a module, if it has any, name only modules of `ds`.
pub open spec fn settled(env: crate::pipeline::Converted, ds: Seq<Seq<char>>, x: Seq<char>) -> bool {
    match env(x) {
        Ok(forms) => forms_within(x, forms, ds),
        Err(_) => true,
    }
}

/// A module settled in a list is settled in a list grown from it.
pub proof fn lemma_settled_grows(
    env: crate::pipeline::Converted,
    ds: Seq<Seq<char>>,
    more: Seq<Seq<char>>,
    x: Seq<char>,
)
    requires
        settled(env, ds, x),
        grown(ds, more),
    ensures
        settled(env, more, x),
{
    match env(x) {
        Ok(forms) => {
            assert forall|j: int| 0 <= j < forms.len() implies form_within(
                x,
                #[trigger] forms[j],
                more,
            ) by {
                lemma_form_within_grows(x, forms[j], ds, more);
            }
        },
        Err(_) => {},
    }
}

/// Every module of `names` is among `ds`.
pub open spec fn inside(names: Seq<Seq<char>>, ds: Seq<Seq<char>>) -> bool {
    forall|j: int| 0 <= j < names.len() ==> ds.contains(#[trigger] names[j])
}

/// Adds a name to the list unless the list holds it.
fn add_name(seen: &mut Vec<String>, name: &String)
    ensures
        grown(views(old(seen)@), views(final(seen)@)),
        views(final(seen)@).contains(name@),
        forall|ds: Seq<Seq<char>>| #[trigger]
            inside(views(old(seen)@), ds) && ds.contains(name@) ==> inside(views(final(seen)@), ds),
        views(old(seen)@).no_duplicates() ==> views(final(seen)@).no_duplicates(),
{
    let mut i: usize = 0;
    while i < seen.len()
        invariant
            i <= seen.len(),
            seen@ == old(seen)@,
            forall|j: int| 0 <= j < i ==> #[trigger] views(seen@)[j] != name@,
        decreases seen.len() - i,
    {
        if same_text(seen[i].as_str(), name.as_str()) {
            proof {
                assert(views(seen@)[i as int] == name@);
            }
            return ;
        }
        i = i + 1;
    }
    seen.push(name.clone());
    proof {
        assert(views(seen@)[old(seen)@.len() as int] == name@);
        assert(views(seen@) =~= views(old(seen)@).push(name@));
        assert forall|ds: Seq<Seq<char>>| #[trigger]
            inside(views(old(seen)@), ds) && ds.contains(name@) implies inside(views(seen@), ds) by {
            assert forall|j: int| 0 <= j < views(seen@).len() implies ds.contains(
                #[trigger] views(seen@)[j],
            ) by {
                if j < old(seen)@.len() {
                    assert(views(seen@)[j] == views(old(seen)@)[j]);
                }
            }
        }
    }
}

/// Adds the modules that the types of a list name.
fn add_types_modules(seen: &mut Vec<String>, own: &str, ts: &Vec<Type>)
    requires
        views(old(seen)@).contains(own@),
    ensures
        grown(views(old(seen)@), views(final(seen)@)),
        all_within(expand_types(own@, types_view(ts@)), views(final(seen)@)),
        forall|ds: Seq<Seq<char>>| #[trigger]
            inside(views(old(seen)@), ds) && all_within(expand_types(own@, types_view(ts@)), ds)
                ==> inside(views(final(seen)@), ds),
        views(old(seen)@).no_duplicates() ==> views(final(seen)@).no_duplicates(),
    decreases ts,
{
    let mut i: usize = 0;
    while i < ts.len()
        invariant
            i <= ts.len(),
            grown(views(old(seen)@), views(seen@)),
            views(seen@).contains(own@),
            forall|j: int| 0 <= j < i ==> within(expand_type(own@, #[trigger] ts@[j]@), views(seen@)),
            forall|ds: Seq<Seq<char>>| #[trigger]
                inside(views(old(seen)@), ds) && all_within(expand_types(own@, types_view(ts@)), ds)
                    ==> inside(views(seen@), ds),
            views(old(seen)@).no_duplicates() ==> views(seen@).no_duplicates(),
        decreases ts.len() - i,
    {
        let ghost before = views(seen@);
        add_type_modules(seen, own, &ts[i]);
        proof {
            assert forall|ds: Seq<Seq<char>>| #[trigger]
                inside(views(old(seen)@), ds) && all_within(
                    expand_types(own@, types_view(ts@)),
                    ds,
                ) implies inside(views(seen@), ds) by {
                assert(inside(before, ds));
                assert(expand_types(own@, types_view(ts@))[i as int] == expand_type(own@, ts@[i as int]@));
            }
            lemma_grown_contains(before, views(seen@));
            assert forall|j: int| 0 <= j < i implies within(
                expand_type(own@, #[trigger] ts@[j]@),
                views(seen@),
            ) by {
                lemma_within_grows(expand_type(own@, ts@[j]@), before, views(seen@));
            }
        }
        i = i + 1;
    }
    proof {
        assert forall|j: int| 0 <= j < ts@.len() implies within(
            #[trigger] expand_types(own@, types_view(ts@))[j],
            views(seen@),
        ) by {
            assert(expand_types(own@, types_view(ts@))[j] == expand_type(own@, ts@[j]@));
        }
    }
}

/// Adds the modules that a type expression of the module `own` names.
fn add_type_modules(seen: &mut Vec<String>, own: &str, t: &Type)
    requires
        views(old(seen)@).contains(own@),
    ensures
        grown(views(old(seen)@), views(final(seen)@)),
        within(expand_type(own@, t@), views(final(seen)@)),
        forall|ds: Seq<Seq<char>>| #[trigger]
            inside(views(old(seen)@), ds) && within(expand_type(own@, t@), ds) ==> inside(
                views(final(seen)@),
                ds,
            ),
        views(old(seen)@).no_duplicates() ==> views(final(seen)@).no_duplicates(),
    decreases t,
{
    proof {
        lemma_type_view_args(*t);
    }
    match &t.head {
        Head::Remote(module, _) if t.args.len() <= u32::MAX as usize => {
            add_name(seen, module);
        },
        _ => {},
    }
    let ghost mid = views(seen@);
    proof {
        lemma_grown_contains(views(old(seen)@), mid);
    }
    add_types_modules(seen, own, &t.args);
    proof {
        lemma_grown_contains(mid, views(seen@));
        let e = expand_type(own@, t@);
        assert forall|i: int| 0 <= i < e.args.len() implies within(#[trigger] e.args[i], views(seen@)) by {
            assert(e.args[i] == expand_types(own@, types_view(t.args@))[i]);
        }
        assert forall|ds: Seq<Seq<char>>| #[trigger]
            inside(views(old(seen)@), ds) && within(e, ds) implies inside(views(seen@), ds) by {
            assert(e.args.len() == t.args@.len());
            match t@.head {
                crate::form::HeadV::Remote(m, _) => {
                    if t.args@.len() <= u32::MAX {
                        assert(referenced(e).unwrap().module == m);
                        assert(ds.contains(m));
                    }
                },
                _ => {},
            }
            assert(inside(mid, ds));
            let args = expand_types(own@, types_view(t.args@));
            assert forall|i: int| 0 <= i < args.len() implies within(#[trigger] args[i], ds) by {
                assert(e.args[i] == args[i]);
            }
        }
    }
}

/// Adds the modules that the field types of a record name.
fn add_field_modules(seen: &mut Vec<String>, own: &str, fields: &Vec<RecField>)
    requires
        views(old(seen)@).contains(own@),
    ensures
        grown(views(old(seen)@), views(final(seen)@)),
        all_within(expand_types(own@, field_types(views(fields@))), views(final(seen)@)),
        forall|ds: Seq<Seq<char>>| #[trigger]
            inside(views(old(seen)@), ds) && all_within(
                expand_types(own@, field_types(views(fields@))),
                ds,
            ) ==> inside(views(final(seen)@), ds),
        views(old(seen)@).no_duplicates() ==> views(final(seen)@).no_duplicates(),
{
    let mut i: usize = 0;
    while i < fields.len()
        invariant
            i <= fields.len(),
            grown(views(old(seen)@), views(seen@)),
            views(seen@).contains(own@),
            forall|j: int|
                0 <= j < i ==> within(expand_type(own@, (#[trigger] fields@[j]).ty@), views(seen@)),
            forall|ds: Seq<Seq<char>>| #[trigger]
                inside(views(old(seen)@), ds) && all_within(
                    expand_types(own@, field_types(views(fields@))),
                    ds,
                ) ==> inside(views(seen@), ds),
            views(old(seen)@).no_duplicates() ==> views(seen@).no_duplicates(),
        decreases fields.len() - i,
    {
        let ghost before = views(seen@);
        add_type_modules(seen, own, &fields[i].ty);
        proof {
            assert forall|ds: Seq<Seq<char>>| #[trigger]
                inside(views(old(seen)@), ds) && all_within(
                    expand_types(own@, field_types(views(fields@))),
                    ds,
                ) implies inside(views(seen@), ds) by {
                assert(inside(before, ds));
                assert(expand_types(own@, field_types(views(fields@)))[i as int] == expand_type(
                    own@,
                    fields@[i as int].ty@,
                ));
            }
            lemma_grown_contains(before, views(seen@));
            assert forall|j: int| 0 <= j < i implies within(
                expand_type(own@, (#[trigger] fields@[j]).ty@),
                views(seen@),
            ) by {
                lemma_within_grows(expand_type(own@, fields@[j].ty@), before, views(seen@));
            }
        }
        i = i + 1;
    }
    proof {
        let want = expand_types(own@, field_types(views(fields@)));
        assert forall|j: int| 0 <= j < want.len() implies within(#[trigger] want[j], views(seen@)) by {
            assert(want[j] == expand_type(own@, fields@[j].ty@));
        }
    }
}

/// Adds the modules that a form of the module `own` names.
fn add_form_modules(seen: &mut Vec<String>, own: &str, form: &ExternalForm)
    requires
        views(old(seen)@).contains(own@),
    ensures
        grown(views(old(seen)@), views(final(seen)@)),
        form_within(own@, form@, views(final(seen)@)),
        forall|ds: Seq<Seq<char>>| #[trigger]
            inside(views(old(seen)@), ds) && form_within(own@, form@, ds) ==> inside(
                views(final(seen)@),
                ds,
            ),
        views(old(seen)@).no_duplicates() ==> views(final(seen)@).no_duplicates(),
{
    match form {
        ExternalForm::TypeDecl(d) => add_type_modules(seen, own, &d.body),
        ExternalForm::FunSpec(s) => add_types_modules(seen, own, &s.types),
        ExternalForm::Callback(c) => add_types_modules(seen, own, &c.tys),
        ExternalForm::RecDecl(r) => add_field_modules(seen, own, &r.fields),
        _ => {},
    }
}

/// Whether every list of modules that holds `module` and, with each of its
/// modules, the modules that its forms name holds the modules of `names`.
pub open spec fn least(env: crate::pipeline::Converted, module: Seq<char>, names: Seq<Seq<char>>) -> bool {
    forall|ds: Seq<Seq<char>>| #[trigger] closed(env, ds) && ds.contains(module) ==> inside(names, ds)
}

/// Whether every list of modules that holds `module` and, with each of its
/// modules, the modules that its forms name is longer than
/// `DEPENDENCY_LIMIT`.
pub open spec fn many(env: crate::pipeline::Converted, module: Seq<char>) -> bool {
    forall|ds: Seq<Seq<char>>| #[trigger]
        closed(env, ds) && ds.contains(module) ==> ds.len() > DEPENDENCY_LIMIT
}

/// A list without doubles is no longer than a list that holds its modules.
pub proof fn lemma_no_longer(names: Seq<Seq<char>>, ds: Seq<Seq<char>>)
    requires
        names.no_duplicates(),
        inside(names, ds),
    ensures
        names.len() <= ds.len(),
{
    names.unique_seq_to_set();
    ds.lemma_cardinality_of_set();
    assert forall|x: Seq<char>| names.to_set().contains(x) implies ds.to_set().contains(x) by {
        let j = choose|j: int| 0 <= j < names.len() && names[j] == x;
        assert(ds.contains(names[j]));
    }
    assert(names.to_set().subset_of(ds.to_set()));
    vstd::set_lib::lemma_len_subset(names.to_set(), ds.to_set());
}

/// The modules that a module's stub stands on: the module, the modules that
/// its forms name, those that their forms name, and so on. Nothing where
/// there are more of them than `DEPENDENCY_LIMIT`.
pub fn dependencies(db: &mut Store, project_id: ProjectId, module: &str) -> (names: Option<Vec<String>>)
    requires
        old(db).wf(),
    ensures
        final(db).wf(),
        final(db).extends(*old(db)),
        match names {
            Some(ns) => views(ns@).contains(module@) && closed(
                project_converted(old(db).inputs(), project_id),
                views(ns@),
            ) && least(project_converted(old(db).inputs(), project_id), module@, views(ns@)),
            None => many(project_converted(old(db).inputs(), project_id), module@),
        },
{
    let ghost start = *db;
    let ghost env = project_converted(db.inputs(), project_id);
    let mut seen: Vec<String> = Vec::new();
    seen.push(String::from_str(module));
    let mut i: usize = 0;
    proof {
        assert(views(seen@)[0] == module@);
        db.lemma_extends_refl();
        assert forall|ds: Seq<Seq<char>>| #[trigger]
            closed(env, ds) && ds.contains(module@) implies inside(views(seen@), ds) by {
            assert(views(seen@).len() == 1);
        }
    }
    while i < seen.len()
        invariant
            i <= seen.len(),
            db.wf(),
            db.extends(start),
            start == *old(db),
            env == project_converted(start.inputs(), project_id),
            seen@.len() > 0,
            views(seen@)[0] == module@,
            forall|j: int| 0 <= j < i ==> settled(env, views(seen@), #[trigger] views(seen@)[j]),
            least(env, module@, views(seen@)),
            views(seen@).no_duplicates(),
        decreases DEPENDENCY_LIMIT - i,
    {
        if i >= DEPENDENCY_LIMIT {
            proof {
                assert forall|ds: Seq<Seq<char>>| #[trigger]
                    closed(env, ds) && ds.contains(module@) implies ds.len() > DEPENDENCY_LIMIT by {
                    assert(inside(views(seen@), ds));
                    lemma_no_longer(views(seen@), ds);
                }
            }
            return None;
        }
        let x = seen[i].clone();
        let ghost at_entry = views(seen@);
        let ghost mid = *db;
        let converted = converted_stub(db, project_id, x.as_str());
        proof {
            db.lemma_extends_trans(mid, start);
        }
        match converted {
            Err(_) => {},
            Ok(ast) => {
                let mut k: usize = 0;
                while k < ast.forms.len()
                    invariant
                        k <= ast.forms.len(),
                        i < seen.len(),
                        i < at_entry.len(),
                        grown(at_entry, views(seen@)),
                        x@ == at_entry[i as int],
                        env(x@) == Ok::<Seq<ExternalFormV>, crate::error::ErrorV>(ast@),
                        forall|j: int|
                            0 <= j < k ==> form_within(x@, #[trigger] ast@[j], views(seen@)),
                        least(env, module@, views(seen@)),
                        views(seen@).no_duplicates(),
                    decreases ast.forms.len() - k,
                {
                    let ghost before = views(seen@);
                    proof {
                        assert(at_entry[i as int] == x@);
                        assert(views(seen@)[i as int] == at_entry[i as int]);
                        assert(ast@[k as int] == ast.forms@[k as int]@);
                    }
                    add_form_modules(&mut seen, x.as_str(), &ast.forms[k]);
                    proof {
                        assert forall|ds: Seq<Seq<char>>| #[trigger]
                            closed(env, ds) && ds.contains(module@) implies inside(
                            views(seen@),
                            ds,
                        ) by {
                            assert(inside(before, ds));
                            assert(ds.contains(before[i as int]));
                            assert(form_within(x@, ast@[k as int], ds));
                        }
                        assert forall|j: int| 0 <= j < k implies form_within(
                            x@,
                            #[trigger] ast@[j],
                            views(seen@),
                        ) by {
                            lemma_form_within_grows(x@, ast@[j], before, views(seen@));
                        }
                    }
                    k = k + 1;
                }
            },
        }
        proof {
            assert forall|j: int| 0 <= j < i + 1 implies settled(
                env,
                views(seen@),
                #[trigger] views(seen@)[j],
            ) by {
                if j < i {
                    assert(views(seen@)[j] == at_entry[j]);
                    lemma_settled_grows(env, at_entry, views(seen@), at_entry[j]);
                }
            }
        }
        i = i + 1;
    }
    proof {
        let ds = views(seen@);
        assert forall|y: Seq<char>| #[trigger] ds.contains(y) implies match env(y) {
            Ok(forms) => forms_within(y, forms, ds),
            Err(_) => true,
        } by {
            let j = choose|j: int| 0 <= j < ds.len() && ds[j] == y;
            assert(settled(env, ds, ds[j]));
        }
    }
    Some(seen)
}

/// Whether the list holds `module` and the modules that its forms name.
pub open spec fn holds_direct(env: crate::pipeline::Converted, module: Seq<char>, ds: Seq<Seq<char>>) -> bool {
    ds.contains(module) && settled(env, ds, module)
}

/// Whether every list that holds `module` and the modules that its forms
/// name holds the modules of `names`.
pub open spec fn least_direct(env: crate::pipeline::Converted, module: Seq<char>, names: Seq<Seq<char>>) -> bool {
    forall|ds: Seq<Seq<char>>| #[trigger] holds_direct(env, module, ds) ==> inside(names, ds)
}

/// Whether every list that holds `module` and the modules that its forms
/// name is longer than `DEPENDENCY_LIMIT`.
pub open spec fn many_direct(env: crate::pipeline::Converted, module: Seq<char>) -> bool {
    forall|ds: Seq<Seq<char>>| #[trigger] holds_direct(env, module, ds) ==> ds.len() > DEPENDENCY_LIMIT
}

/// The modules that the forms of a module name, and the module itself:
/// what its expanded stub stands on. Nothing where there are more of them
/// than `DEPENDENCY_LIMIT`.
pub fn direct_dependencies(db: &mut Store, project_id: ProjectId, module: &str) -> (names: Option<
    Vec<String>,
>)
    requires
        old(db).wf(),
    ensures
        final(db).wf(),
        final(db).extends(*old(db)),
        match names {
            Some(ns) => holds_direct(
                project_converted(old(db).inputs(), project_id),
                module@,
                views(ns@),
            ) && least_direct(project_converted(old(db).inputs(), project_id), module@, views(ns@)),
            None => many_direct(project_converted(old(db).inputs(), project_id), module@),
        },
{
    let ghost env = project_converted(db.inputs(), project_id);
    let mut seen: Vec<String> = Vec::new();
    seen.push(String::from_str(module));
    proof {
        assert(views(seen@)[0] == module@);
        assert forall|ds: Seq<Seq<char>>| #[trigger] holds_direct(env, module@, ds) implies inside(
            views(seen@),
            ds,
        ) by {
            assert(views(seen@).len() == 1);
        }
    }
    let converted = converted_stub(db, project_id, module);
    match converted {
        Err(_) => {},
        Ok(ast) => {
            let mut k: usize = 0;
            while k < ast.forms.len()
                invariant
                    k <= ast.forms.len(),
                    seen@.len() > 0,
                    views(seen@)[0] == module@,
                    env(module@) == Ok::<Seq<ExternalFormV>, crate::error::ErrorV>(ast@),
                    forall|j: int| 0 <= j < k ==> form_within(module@, #[trigger] ast@[j], views(seen@)),
                    least_direct(env, module@, views(seen@)),
                    views(seen@).no_duplicates(),
                decreases ast.forms.len() - k,
            {
                let ghost before = views(seen@);
                proof {
                    assert(ast@[k as int] == ast.forms@[k as int]@);
                }
                add_form_modules(&mut seen, module, &ast.forms[k]);
                proof {
                    assert(views(seen@)[0] == before[0]);
                    assert forall|ds: Seq<Seq<char>>| #[trigger]
                        holds_direct(env, module@, ds) implies inside(views(seen@), ds) by {
                        assert(inside(before, ds));
                        assert(form_within(module@, ast@[k as int], ds));
                    }
                    assert forall|j: int| 0 <= j < k implies form_within(
                        module@,
                        #[trigger] ast@[j],
                        views(seen@),
                    ) by {
                        lemma_form_within_grows(module@, ast@[j], before, views(seen@));
                    }
                }
                k = k + 1;
            }
        },
    }
    if seen.len() > DEPENDENCY_LIMIT {
        proof {
            assert forall|ds: Seq<Seq<char>>| #[trigger] holds_direct(env, module@, ds) implies ds.len()
                > DEPENDENCY_LIMIT by {
                assert(inside(views(seen@), ds));
                lemma_no_longer(views(seen@), ds);
            }
        }
        return None;
    }
    Some(seen)
}

/// Each module of `names` that has a file has it among `files`.
pub open spec fn covers(inputs: Inputs, project_id: ProjectId, names: Seq<Seq<char>>, files: Seq<FileId>) -> bool {
    forall|x: Seq<char>| #[trigger]
        names.contains(x) ==> match inputs.spec_file_for_module(project_id, x) {
            Some(g) => files.contains(g),
            None => true,
        }
}

/// Each of `files` is the file of a module of `names`.
pub open spec fn drawn(inputs: Inputs, project_id: ProjectId, names: Seq<Seq<char>>, files: Seq<FileId>) -> bool {
    forall|d: int|
        0 <= d < files.len() ==> exists|j: int|
            0 <= j < names.len() && inputs.spec_file_for_module(project_id, #[trigger] names[j])
                == Some(#[trigger] files[d])
}

/// The files of the modules of a list.
pub fn files_of(db: &Store, project_id: ProjectId, names: &Vec<String>) -> (files: Vec<FileId>)
    ensures
        module_files(db.inputs(), files@),
        covers(db.inputs(), project_id, views(names@), files@),
        drawn(db.inputs(), project_id, views(names@), files@),
{
    let inputs = db.get_inputs();
    let mut files: Vec<FileId> = Vec::new();
    let mut i: usize = 0;
    while i < names.len()
        invariant
            i <= names.len(),
            *inputs == db.inputs(),
            module_files(*inputs, files@),
            drawn(*inputs, project_id, views(names@), files@),
            forall|j: int|
                0 <= j < i ==> match inputs.spec_file_for_module(project_id, #[trigger] views(names@)[j]) {
                    Some(g) => files@.contains(g),
                    None => true,
                },
        decreases names.len() - i,
    {
        let ghost before = files@;
        match inputs.file_for_module(project_id, names[i].as_str()) {
            Some(g) => {
                files.push(g);
                proof {
                    let hold = |e: ModuleEntry| e.project_id == project_id && e.name@ == names@[i as int]@;
                    lemma_first_where(inputs.modules@, hold);
                    let at = first_where(inputs.modules@, hold).unwrap();
                    assert(inputs.modules@[at].file_id == g);
                    assert(files@[before.len() as int] == g);
                    assert forall|d: int| 0 <= d < files@.len() implies exists|j: int|
                        0 <= j < views(names@).len() && inputs.spec_file_for_module(
                            project_id,
                            #[trigger] views(names@)[j],
                        ) == Some(#[trigger] files@[d]) by {
                        if d < before.len() {
                            assert(files@[d] == before[d]);
                            let j = choose|j: int|
                                0 <= j < views(names@).len() && inputs.spec_file_for_module(
                                    project_id,
                                    #[trigger] views(names@)[j],
                                ) == Some(before[d]);
                            assert(inputs.spec_file_for_module(project_id, views(names@)[j]) == Some(
                                files@[d],
                            ));
                        } else {
                            assert(inputs.spec_file_for_module(project_id, views(names@)[i as int])
                                == Some(files@[d]));
                        }
                    }
                    assert forall|d: int| 0 <= d < files@.len() implies exists|j: int|
                        0 <= j < inputs.modules@.len() && (#[trigger] inputs.modules@[j]).file_id
                            == #[trigger] files@[d] by {
                        if d < before.len() {
                            assert(files@[d] == before[d]);
                            let j = choose|j: int|
                                0 <= j < inputs.modules@.len() && (#[trigger] inputs.modules@[j]).file_id
                                    == before[d];
                            assert(inputs.modules@[j].file_id == files@[d]);
                        } else {
                            assert(inputs.modules@[at].file_id == files@[d]);
                        }
                    }
                    assert forall|j: int| 0 <= j < i + 1 implies match inputs.spec_file_for_module(
                        project_id,
                        #[trigger] views(names@)[j],
                    ) {
                        Some(h) => files@.contains(h),
                        None => true,
                    } by {
                        match inputs.spec_file_for_module(project_id, views(names@)[j]) {
                            Some(h) => {
                                if j < i {
                                    let d = choose|d: int| 0 <= d < before.len() && before[d] == h;
                                    assert(files@[d] == h);
                                }
                            },
                            None => {},
                        }
                    }
                }
            },
            None => {},
        }
        i = i + 1;
    }
    proof {
        assert forall|x: Seq<char>| #[trigger] views(names@).contains(x) implies match inputs.spec_file_for_module(
            project_id,
            x,
        ) {
            Some(g) => files@.contains(g),
            None => true,
        } by {
            let j = choose|j: int| 0 <= j < views(names@).len() && views(names@)[j] == x;
        }
    }
    files
}

/// On inputs with the same structure, and the same parse results for the
/// files of some modules, the converted stubs of those modules are the same.
pub proof fn lemma_agree_from_framed(
    a: Inputs,
    b: Inputs,
    project_id: ProjectId,
    names: Seq<Seq<char>>,
    files: Seq<FileId>,
)
    requires
        framed(a, b, files),
        covers(a, project_id, names, files),
    ensures
        agree(project_converted(a, project_id), project_converted(b, project_id), names),
{
    assert forall|x: Seq<char>| #[trigger] names.contains(x) implies project_converted(b, project_id)(
        x,
    ) == project_converted(a, project_id)(x) by {
        match a.spec_file_for_module(project_id, x) {
            None => {},
            Some(g) => {
                let d = choose|d: int| 0 <= d < files.len() && files[d] == g;
                assert(b.spec_module_ast(files[d]) == a.spec_module_ast(files[d]));
                assert(b.spec_file_for_module(project_id, x) == Some(g));
                assert(b.spec_file_app_data(g) == a.spec_file_app_data(g));
                assert(spec_from_beam_path(b, g, x) == spec_from_beam_path(a, g, x));
                assert(spec_erl_ast_bytes(b, project_id, x) == spec_erl_ast_bytes(a, project_id, x));
            },
        }
        assert(spec_converted_stub(b, project_id, x) == spec_converted_stub(a, project_id, x));
    }
}

/// A module's converted stub is the same under all inputs that are alike
/// on the module's file.
pub proof fn lemma_converted_rests_on(
    a: Inputs,
    project_id: ProjectId,
    names: Seq<Seq<char>>,
    files: Seq<FileId>,
    module: Seq<char>,
)
    requires
        covers(a, project_id, names, files),
        names.contains(module),
    ensures
        forall|b: Inputs| #[trigger]
            framed(a, b, files) ==> spec_converted_stub(b, project_id, module) == spec_converted_stub(
                a,
                project_id,
                module,
            ),
{
    assert forall|b: Inputs| #[trigger] framed(a, b, files) implies spec_converted_stub(
        b,
        project_id,
        module,
    ) == spec_converted_stub(a, project_id, module) by {
        lemma_agree_from_framed(a, b, project_id, names, files);
        assert(project_converted(b, project_id)(module) == project_converted(a, project_id)(module));
    }
}

/// A module's contractive stub and its transitive stub are the same under
/// all inputs that are alike on the files of the modules that they stand on.
pub proof fn lemma_stub_rests_on(
    a: Inputs,
    project_id: ProjectId,
    names: Seq<Seq<char>>,
    files: Seq<FileId>,
    module: Seq<char>,
)
    requires
        covers(a, project_id, names, files),
        closed(project_converted(a, project_id), names),
        names.contains(module),
    ensures
        forall|b: Inputs| #[trigger]
            framed(a, b, files) ==> spec_contractive_stub(b, project_id, module)
                == spec_contractive_stub(a, project_id, module) && spec_transitive_stub(
                b,
                project_id,
                module,
            ) == spec_transitive_stub(a, project_id, module),
{
    assert forall|b: Inputs| #[trigger] framed(a, b, files) implies spec_contractive_stub(
        b,
        project_id,
        module,
    ) == spec_contractive_stub(a, project_id, module) && spec_transitive_stub(b, project_id, module)
        == spec_transitive_stub(a, project_id, module) by {
        let e1 = project_converted(a, project_id);
        let e2 = project_converted(b, project_id);
        lemma_agree_from_framed(a, b, project_id, names, files);
        crate::frame::lemma_contractive_frame(e1, e2, names, module);
        crate::frame::lemma_transitive_frame(e1, e2, names, module);
    }
}

/// None of `files` bears on the file of a module of `ds`.
pub open spec fn apart(inputs: Inputs, project_id: ProjectId, ds: Seq<Seq<char>>, files: Seq<FileId>) -> bool {
    forall|x: Seq<char>, k: int| #[trigger]
        ds.contains(x) && 0 <= k < files.len() ==> match inputs.spec_file_for_module(project_id, x) {
            Some(g) => !bears_on(inputs, g, #[trigger] files[k]),
            None => true,
        }
}

/// Whether a module's stub stands apart from the files: some list of no
/// more than `DEPENDENCY_LIMIT` modules holds the module and, with each of
/// its modules, the modules that its forms name, and none of the files
/// bears on the file of one of them.
pub open spec fn stands_apart(
    inputs: Inputs,
    project_id: ProjectId,
    module: Seq<char>,
    files: Seq<FileId>,
) -> bool {
    exists|ds: Seq<Seq<char>>| #[trigger]
        closed(project_converted(inputs, project_id), ds) && ds.contains(module) && ds.len()
            <= DEPENDENCY_LIMIT && apart(inputs, project_id, ds, files)
}

/// The files of the least list of modules that a stub stands on are clear
/// of every list of files that the stub stands apart from.
pub proof fn lemma_least_is_clear(
    inputs: Inputs,
    project_id: ProjectId,
    module: Seq<char>,
    names: Seq<Seq<char>>,
    deps: Seq<FileId>,
    files: Seq<FileId>,
)
    requires
        least(project_converted(inputs, project_id), module, names),
        drawn(inputs, project_id, names, deps),
        stands_apart(inputs, project_id, module, files),
    ensures
        clear_of(inputs, deps, files),
{
    let ds = choose|ds: Seq<Seq<char>>| #[trigger]
        closed(project_converted(inputs, project_id), ds) && ds.contains(module) && ds.len()
            <= DEPENDENCY_LIMIT && apart(inputs, project_id, ds, files);
    assert(inside(names, ds));
    lemma_inside_is_clear(inputs, project_id, names, ds, deps, files);
}

/// The file of a module is clear of every list of files none of which
/// bears on it.
pub proof fn lemma_own_is_clear(
    inputs: Inputs,
    project_id: ProjectId,
    module: Seq<char>,
    deps: Seq<FileId>,
    files: Seq<FileId>,
)
    requires
        drawn(inputs, project_id, seq![module], deps),
        apart(inputs, project_id, seq![module], files),
    ensures
        clear_of(inputs, deps, files),
{
    let names = seq![module];
    assert(names[0] == module);
    lemma_inside_is_clear(inputs, project_id, names, names, deps, files);
}

/// A module's expanded stub is the same under all inputs that are alike on
/// the files of the module and of the modules that its forms name.
pub proof fn lemma_expanded_rests_on(
    a: Inputs,
    project_id: ProjectId,
    names: Seq<Seq<char>>,
    files: Seq<FileId>,
    module: Seq<char>,
)
    requires
        covers(a, project_id, names, files),
        holds_direct(project_converted(a, project_id), module, names),
    ensures
        forall|b: Inputs| #[trigger]
            framed(a, b, files) ==> spec_expanded_stub(b, project_id, module) == spec_expanded_stub(
                a,
                project_id,
                module,
            ),
{
    assert forall|b: Inputs| #[trigger] framed(a, b, files) implies spec_expanded_stub(
        b,
        project_id,
        module,
    ) == spec_expanded_stub(a, project_id, module) by {
        let e1 = project_converted(a, project_id);
        let e2 = project_converted(b, project_id);
        lemma_agree_from_framed(a, b, project_id, names, files);
        assert(e2(module) == e1(module));
        match e1(module) {
            Ok(forms) => {
                crate::frame::lemma_expand_forms_frame(e1, e2, names, module, forms, forms.len());
            },
            Err(_) => {},
        }
    }
}

/// Whether a module's expanded stub stands apart from the files: some list
/// of no more than `DEPENDENCY_LIMIT` modules holds the module and the
/// modules that its forms name, and none of the files bears on the file of
/// one of them.
pub open spec fn stands_apart_direct(
    inputs: Inputs,
    project_id: ProjectId,
    module: Seq<char>,
    files: Seq<FileId>,
) -> bool {
    exists|ds: Seq<Seq<char>>| #[trigger]
        holds_direct(project_converted(inputs, project_id), module, ds) && ds.len()
            <= DEPENDENCY_LIMIT && apart(inputs, project_id, ds, files)
}

/// The files of the least list of modules that an expanded stub stands on
/// are clear of every list of files that the stub stands apart from.
pub proof fn lemma_least_direct_is_clear(
    inputs: Inputs,
    project_id: ProjectId,
    module: Seq<char>,
    names: Seq<Seq<char>>,
    deps: Seq<FileId>,
    files: Seq<FileId>,
)
    requires
        least_direct(project_converted(inputs, project_id), module, names),
        drawn(inputs, project_id, names, deps),
        stands_apart_direct(inputs, project_id, module, files),
    ensures
        clear_of(inputs, deps, files),
{
    let ds = choose|ds: Seq<Seq<char>>| #[trigger]
        holds_direct(project_converted(inputs, project_id), module, ds) && ds.len()
            <= DEPENDENCY_LIMIT && apart(inputs, project_id, ds, files);
    lemma_inside_is_clear(inputs, project_id, names, ds, deps, files);
}

/// The files of modules of a list are clear of the files that stand apart
/// from a list that holds these modules.
pub proof fn lemma_inside_is_clear(
    inputs: Inputs,
    project_id: ProjectId,
    names: Seq<Seq<char>>,
    ds: Seq<Seq<char>>,
    deps: Seq<FileId>,
    files: Seq<FileId>,
)
    requires
        inside(names, ds),
        drawn(inputs, project_id, names, deps),
        apart(inputs, project_id, ds, files),
    ensures
        clear_of(inputs, deps, files),
{
    assert forall|i: int, k: int| 0 <= i < deps.len() && 0 <= k < files.len() implies !bears_on(
        inputs,
        #[trigger] deps[i],
        #[trigger] files[k],
    ) by {
        let j = choose|j: int|
            0 <= j < names.len() && inputs.spec_file_for_module(project_id, #[trigger] names[j]) == Some(
                deps[i],
            );
        assert(ds.contains(names[j]));
    }
}

} // verus!
