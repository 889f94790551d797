//! What a stub depends on: the modules that it names, those that they name,
//! and so on. On two sets of converted stubs that agree on these modules the
//! stub is the same.

use crate::form::ExternalFormV;
use crate::form::FunSpecV;
use crate::form::RecDeclV;
use crate::form::SignaturesV;
use crate::form::TypeDeclV;
use crate::form::TypeV;
use crate::ids::RemoteIdV;
use crate::laws::drawn_from;
use crate::laws::lemma_expanded_wf;
use crate::laws::lemma_stubs_wf;
use crate::laws::lemma_valid_records_drawn;
use crate::laws::lemma_valid_signatures_drawn;
use crate::laws::lemma_valid_specs_drawn;
use crate::laws::lemma_valid_types_drawn;
use crate::laws::record_key;
use crate::laws::signatures_key;
use crate::laws::spec_key;
use crate::laws::type_key;
use crate::pipeline::all_productive;
use crate::pipeline::all_resolve;
use crate::pipeline::all_valid;
use crate::pipeline::bodies;
use crate::pipeline::expand_form;
use crate::pipeline::expand_forms;
use crate::pipeline::expand_type;
use crate::pipeline::expand_types;
use crate::pipeline::field_types;
use crate::pipeline::gather;
use crate::pipeline::gather_all;
use crate::pipeline::productive;
use crate::pipeline::project_contractive;
use crate::pipeline::project_expanded;
use crate::pipeline::record_types;
use crate::pipeline::referenced;
use crate::pipeline::resolves;
use crate::pipeline::signature_types;
use crate::pipeline::spec_contractive;
use crate::pipeline::spec_expand;
use crate::pipeline::spec_transitive;
use crate::pipeline::spec_types;
use crate::pipeline::stub_types;
use crate::pipeline::transitive_of;
use crate::pipeline::valid;
use crate::pipeline::valid_records;
use crate::pipeline::valid_signatures;
use crate::pipeline::valid_specs;
use crate::pipeline::valid_types;
use crate::pipeline::verdicts;
use crate::pipeline::with_field_types;
use crate::pipeline::Converted;
use crate::pipeline::EXPANSION_LIMIT;
use crate::seqs::lemma_first_where;
use crate::stub::ModuleStubV;
use crate::stub::VStubV;
use vstd::prelude::*;

verus! {

/// Whether every module that a type expression names is among `ds`.
pub open spec fn within(t: TypeV, ds: Seq<Seq<char>>) -> bool
    decreases t,
{
    &&& match referenced(t) {
        Some(rid) => ds.contains(rid.module),
        None => true,
    }
    &&& forall|i: int| 0 <= i < t.args.len() ==> within(#[trigger] t.args[i], ds)
}

/// Whether every module that the type expressions name is among `ds`.
pub open spec fn all_within(ts: Seq<TypeV>, ds: Seq<Seq<char>>) -> bool {
    forall|i: int| 0 <= i < ts.len() ==> within(#[trigger] ts[i], ds)
}

/// Whether every module that a form of `module` names is among `ds`.
pub open spec fn form_within(module: Seq<char>, form: ExternalFormV, ds: Seq<Seq<char>>) -> bool {
    match form {
        ExternalFormV::TypeDecl(d) => within(expand_type(module, d.body), ds),
        ExternalFormV::FunSpec(s) => all_within(expand_types(module, s.tys), ds),
        ExternalFormV::Callback(c) => all_within(expand_types(module, c.tys), ds),
        ExternalFormV::RecDecl(r) => all_within(expand_types(module, field_types(r.fields)), ds),
        _ => true,
    }
}

/// Whether every module that the forms of `module` name is among `ds`.
pub open spec fn forms_within(module: Seq<char>, forms: Seq<ExternalFormV>, ds: Seq<Seq<char>>) -> bool {
    forall|j: int| 0 <= j < forms.len() ==> form_within(module, #[trigger] forms[j], ds)
}

/// Whether `ds` holds, with each of its modules, the modules that its forms name.
pub open spec fn closed(env: Converted, ds: Seq<Seq<char>>) -> bool {
    forall|x: Seq<char>| #[trigger]
        ds.contains(x) ==> match env(x) {
            Ok(forms) => forms_within(x, forms, ds),
            Err(_) => true,
        }
}

/// Whether two sets of converted stubs hold the same for the modules of `ds`.
pub open spec fn agree(e1: Converted, e2: Converted, ds: Seq<Seq<char>>) -> bool {
    forall|x: Seq<char>| #[trigger] ds.contains(x) ==> e2(x) == e1(x)
}

/// Whether every module that a stub's declarations name is among `ds`.
pub open spec fn stub_within(stub: ModuleStubV, ds: Seq<Seq<char>>) -> bool {
    &&& forall|i: int| 0 <= i < stub.types.len() ==> within((#[trigger] stub.types[i]).body, ds)
    &&& forall|i: int|
        0 <= i < stub.records.len() ==> all_within(field_types((#[trigger] stub.records[i]).fields), ds)
    &&& forall|i: int| 0 <= i < stub.specs.len() ==> within((#[trigger] stub.specs[i]).ty, ds)
    &&& forall|i: int|
        0 <= i < stub.overloaded_specs.len() ==> all_within(
            (#[trigger] stub.overloaded_specs[i]).tys,
            ds,
        )
    &&& forall|i: int|
        0 <= i < stub.callbacks.len() ==> all_within((#[trigger] stub.callbacks[i]).tys, ds)
}

/// A type expression within a list is within every list that holds what the
/// first holds.
pub proof fn lemma_within_grows(t: TypeV, ds: Seq<Seq<char>>, more: Seq<Seq<char>>)
    requires
        within(t, ds),
        forall|x: Seq<char>| ds.contains(x) ==> more.contains(x),
    ensures
        within(t, more),
    decreases t,
{
    assert forall|i: int| 0 <= i < t.args.len() implies within(#[trigger] t.args[i], more) by {
        lemma_within_grows(t.args[i], ds, more);
    }
}

/// Whether a type expression resolves is the same under converted stubs that
/// agree on the modules it names.
pub proof fn lemma_resolves_frame(e1: Converted, e2: Converted, ds: Seq<Seq<char>>, module: Seq<char>, t: TypeV)
    requires
        agree(e1, e2, ds),
        within(t, ds),
    ensures
        resolves(e2, module, t) == resolves(e1, module, t),
    decreases t, 0nat,
{
    lemma_all_resolve_frame(e1, e2, ds, module, t.args, 0);
}

/// The same for a list of type expressions.
pub proof fn lemma_all_resolve_frame(
    e1: Converted,
    e2: Converted,
    ds: Seq<Seq<char>>,
    module: Seq<char>,
    ts: Seq<TypeV>,
    i: nat,
)
    requires
        agree(e1, e2, ds),
        all_within(ts, ds),
    ensures
        all_resolve(e2, module, ts, i) == all_resolve(e1, module, ts, i),
    decreases ts, ts.len() - i,
{
    if i < ts.len() {
        lemma_resolves_frame(e1, e2, ds, module, ts[i as int]);
        lemma_all_resolve_frame(e1, e2, ds, module, ts, i + 1);
    }
}

/// What a form adds to a stub is the same under converted stubs that agree on
/// the modules it names.
pub proof fn lemma_expand_form_frame(
    e1: Converted,
    e2: Converted,
    ds: Seq<Seq<char>>,
    stub: ModuleStubV,
    form: ExternalFormV,
)
    requires
        agree(e1, e2, ds),
        form_within(stub.module, form, ds),
    ensures
        expand_form(e2, stub, form) == expand_form(e1, stub, form),
{
    match form {
        ExternalFormV::TypeDecl(d) => {
            lemma_resolves_frame(e1, e2, ds, stub.module, expand_type(stub.module, d.body));
        },
        ExternalFormV::FunSpec(s) => {
            lemma_all_resolve_frame(e1, e2, ds, stub.module, expand_types(stub.module, s.tys), 0);
        },
        ExternalFormV::Callback(c) => {
            lemma_all_resolve_frame(e1, e2, ds, stub.module, expand_types(stub.module, c.tys), 0);
        },
        ExternalFormV::RecDecl(r) => {
            lemma_all_resolve_frame(
                e1,
                e2,
                ds,
                stub.module,
                expand_types(stub.module, field_types(r.fields)),
                0,
            );
        },
        _ => {},
    }
}

/// What a form adds to a stub names only modules that the form names.
pub proof fn lemma_expand_form_within(e: Converted, ds: Seq<Seq<char>>, stub: ModuleStubV, form: ExternalFormV)
    requires
        stub_within(stub, ds),
        form_within(stub.module, form, ds),
        expand_form(e, stub, form) is Ok,
    ensures
        stub_within(expand_form(e, stub, form)->Ok_0, ds),
{
    let next = expand_form(e, stub, form)->Ok_0;
    match form {
        ExternalFormV::RecDecl(r) => {
            let tys = expand_types(stub.module, field_types(r.fields));
            assert(field_types(with_field_types(r.fields, tys)) =~= tys);
            assert forall|i: int| 0 <= i < next.records.len() implies all_within(
                field_types((#[trigger] next.records[i]).fields),
                ds,
            ) by {
                if i < stub.records.len() {
                    assert(next.records[i] == stub.records[i]);
                }
            }
        },
        ExternalFormV::TypeDecl(d) => {
            assert forall|i: int| 0 <= i < next.types.len() implies within(
                (#[trigger] next.types[i]).body,
                ds,
            ) by {
                if i < stub.types.len() {
                    assert(next.types[i] == stub.types[i]);
                }
            }
        },
        ExternalFormV::FunSpec(s) => {
            let tys = expand_types(stub.module, s.tys);
            assert forall|i: int| 0 <= i < next.specs.len() implies within(
                (#[trigger] next.specs[i]).ty,
                ds,
            ) by {
                if i < stub.specs.len() {
                    assert(next.specs[i] == stub.specs[i]);
                } else {
                    assert(within(tys[0], ds));
                }
            }
            assert forall|i: int| 0 <= i < next.overloaded_specs.len() implies all_within(
                (#[trigger] next.overloaded_specs[i]).tys,
                ds,
            ) by {
                if i < stub.overloaded_specs.len() {
                    assert(next.overloaded_specs[i] == stub.overloaded_specs[i]);
                }
            }
        },
        ExternalFormV::Callback(c) => {
            assert forall|i: int| 0 <= i < next.callbacks.len() implies all_within(
                (#[trigger] next.callbacks[i]).tys,
                ds,
            ) by {
                if i < stub.callbacks.len() {
                    assert(next.callbacks[i] == stub.callbacks[i]);
                }
            }
        },
        _ => {},
    }
}

/// What forms make of a stub is the same under converted stubs that agree on
/// the modules they name.
pub proof fn lemma_expand_forms_frame(
    e1: Converted,
    e2: Converted,
    ds: Seq<Seq<char>>,
    module: Seq<char>,
    forms: Seq<ExternalFormV>,
    n: nat,
)
    requires
        agree(e1, e2, ds),
        forms_within(module, forms, ds),
        n <= forms.len(),
    ensures
        expand_forms(e2, module, forms, n) == expand_forms(e1, module, forms, n),
        expand_forms(e1, module, forms, n) is Ok ==> stub_within(
            expand_forms(e1, module, forms, n)->Ok_0,
            ds,
        ),
    decreases n,
{
    if n > 0 {
        lemma_expand_forms_frame(e1, e2, ds, module, forms, (n - 1) as nat);
        match expand_forms(e1, module, forms, (n - 1) as nat) {
            Ok(stub) => {
                lemma_expanded_wf(e1, module, forms, (n - 1) as nat);
                lemma_expand_form_frame(e1, e2, ds, stub, forms[n - 1]);
                if expand_form(e1, stub, forms[n - 1]) is Ok {
                    lemma_expand_form_within(e1, ds, stub, forms[n - 1]);
                }
            },
            Err(_) => {},
        }
    }
}

/// The expanded stub of a module of `ds` is the same on both, and names
/// only modules of `ds`.
pub proof fn lemma_expand_frame(e1: Converted, e2: Converted, ds: Seq<Seq<char>>, x: Seq<char>)
    requires
        agree(e1, e2, ds),
        closed(e1, ds),
        ds.contains(x),
    ensures
        spec_expand(e2, x) == spec_expand(e1, x),
        spec_expand(e1, x) is Ok ==> stub_within(spec_expand(e1, x)->Ok_0, ds),
{
    match e1(x) {
        Ok(forms) => {
            lemma_expand_forms_frame(e1, e2, ds, x, forms, forms.len());
        },
        Err(_) => {},
    }
}

/// Whether a type expression is productive is the same under converted stubs
/// that agree on the modules of a closed list that holds those it names.
pub proof fn lemma_productive_frame(
    e1: Converted,
    e2: Converted,
    ds: Seq<Seq<char>>,
    fuel: nat,
    visited: Seq<RemoteIdV>,
    t: TypeV,
)
    requires
        agree(e1, e2, ds),
        closed(e1, ds),
        within(t, ds),
    ensures
        productive(project_expanded(e2), fuel, visited, t) == productive(
            project_expanded(e1),
            fuel,
            visited,
            t,
        ),
    decreases fuel, t, 0nat,
{
    match referenced(t) {
        Some(rid) => {
            lemma_expand_frame(e1, e2, ds, rid.module);
            if !visited.contains(rid) {
                match spec_expand(e1, rid.module) {
                    Ok(stub) => {
                        lemma_first_where(stub.types, |d: TypeDeclV| d.id == rid.id());
                        match crate::stub::find_type(stub.types, rid.id()) {
                            Some(d) => {
                                if fuel > 0 {
                                    lemma_productive_frame(
                                        e1,
                                        e2,
                                        ds,
                                        (fuel - 1) as nat,
                                        visited.push(rid),
                                        d.body,
                                    );
                                }
                            },
                            None => {},
                        }
                    },
                    Err(_) => {},
                }
            }
        },
        None => {},
    }
    lemma_all_productive_frame(e1, e2, ds, fuel, visited, t.args, 0);
}

/// The same for a list of type expressions.
pub proof fn lemma_all_productive_frame(
    e1: Converted,
    e2: Converted,
    ds: Seq<Seq<char>>,
    fuel: nat,
    visited: Seq<RemoteIdV>,
    ts: Seq<TypeV>,
    i: nat,
)
    requires
        agree(e1, e2, ds),
        closed(e1, ds),
        all_within(ts, ds),
    ensures
        all_productive(project_expanded(e2), fuel, visited, ts, i) == all_productive(
            project_expanded(e1),
            fuel,
            visited,
            ts,
            i,
        ),
    decreases fuel, ts, ts.len() - i,
{
    if i < ts.len() {
        lemma_productive_frame(e1, e2, ds, fuel, visited, ts[i as int]);
        lemma_all_productive_frame(e1, e2, ds, fuel, visited, ts, i + 1);
    }
}

/// The verdicts on the types of a stub are the same under converted stubs that
/// agree on a closed list that holds the modules the stub names.
pub proof fn lemma_verdicts_frame(e1: Converted, e2: Converted, ds: Seq<Seq<char>>, stub: ModuleStubV, n: nat)
    requires
        agree(e1, e2, ds),
        closed(e1, ds),
        stub_within(stub, ds),
        n <= stub.types.len(),
    ensures
        verdicts(project_expanded(e2), stub, n) == verdicts(project_expanded(e1), stub, n),
    decreases n,
{
    if n > 0 {
        lemma_verdicts_frame(e1, e2, ds, stub, (n - 1) as nat);
        let d = stub.types[n - 1];
        lemma_productive_frame(
            e1,
            e2,
            ds,
            EXPANSION_LIMIT as nat,
            seq![crate::pipeline::declared(stub.module, d.id)],
            d.body,
        );
    }
}

/// The contractive stub of a module of `ds` is the same on both.
pub proof fn lemma_contractive_frame(e1: Converted, e2: Converted, ds: Seq<Seq<char>>, x: Seq<char>)
    requires
        agree(e1, e2, ds),
        closed(e1, ds),
        ds.contains(x),
    ensures
        spec_contractive(e2, x) == spec_contractive(e1, x),
        spec_contractive(e1, x) is Ok ==> stub_within(spec_contractive(e1, x)->Ok_0.stub, ds),
{
    lemma_expand_frame(e1, e2, ds, x);
    match spec_expand(e1, x) {
        Ok(stub) => {
            lemma_verdicts_frame(e1, e2, ds, stub, stub.types.len());
        },
        Err(_) => {},
    }
}

/// Whether a type expression stands on valid declarations is the same under
/// converted stubs that agree on a closed list that holds the modules it
/// names.
pub proof fn lemma_valid_frame(
    e1: Converted,
    e2: Converted,
    ds: Seq<Seq<char>>,
    fuel: nat,
    visited: Seq<RemoteIdV>,
    t: TypeV,
)
    requires
        agree(e1, e2, ds),
        closed(e1, ds),
        within(t, ds),
    ensures
        valid(project_contractive(e2), fuel, visited, t) == valid(
            project_contractive(e1),
            fuel,
            visited,
            t,
        ),
    decreases fuel, t, 0nat,
{
    match referenced(t) {
        Some(rid) => {
            lemma_contractive_frame(e1, e2, ds, rid.module);
            if !visited.contains(rid) {
                match spec_contractive(e1, rid.module) {
                    Ok(v) => {
                        lemma_first_where(v.stub.types, |d: TypeDeclV| d.id == rid.id());
                        match crate::pipeline::type_index(v.stub.types, rid.id()) {
                            Some(i) => {
                                if fuel > 0 {
                                    lemma_valid_frame(
                                        e1,
                                        e2,
                                        ds,
                                        (fuel - 1) as nat,
                                        visited.push(rid),
                                        v.stub.types[i].body,
                                    );
                                }
                            },
                            None => {},
                        }
                    },
                    Err(_) => {},
                }
            }
        },
        None => {},
    }
    lemma_all_valid_frame(e1, e2, ds, fuel, visited, t.args, 0);
}

/// The same for a list of type expressions.
pub proof fn lemma_all_valid_frame(
    e1: Converted,
    e2: Converted,
    ds: Seq<Seq<char>>,
    fuel: nat,
    visited: Seq<RemoteIdV>,
    ts: Seq<TypeV>,
    i: nat,
)
    requires
        agree(e1, e2, ds),
        closed(e1, ds),
        all_within(ts, ds),
    ensures
        all_valid(project_contractive(e2), fuel, visited, ts, i) == all_valid(
            project_contractive(e1),
            fuel,
            visited,
            ts,
            i,
        ),
    decreases fuel, ts, ts.len() - i,
{
    if i < ts.len() {
        lemma_valid_frame(e1, e2, ds, fuel, visited, ts[i as int]);
        lemma_all_valid_frame(e1, e2, ds, fuel, visited, ts, i + 1);
    }
}

/// The foreign declarations gathered for a type expression are the same under
/// converted stubs that agree on a closed list that holds the modules it
/// names.
pub proof fn lemma_gather_frame(
    e1: Converted,
    e2: Converted,
    ds: Seq<Seq<char>>,
    own: Seq<char>,
    fuel: nat,
    acc: Seq<(Seq<char>, TypeDeclV)>,
    t: TypeV,
)
    requires
        agree(e1, e2, ds),
        closed(e1, ds),
        within(t, ds),
    ensures
        gather(project_contractive(e2), own, fuel, acc, t) == gather(
            project_contractive(e1),
            own,
            fuel,
            acc,
            t,
        ),
    decreases fuel, t, 0nat,
{
    let here = match referenced(t) {
        None => acc,
        Some(rid) => if rid.module == own || crate::pipeline::holds_foreign(acc, rid) {
            acc
        } else {
            match project_contractive(e1)(rid.module) {
                Err(_) => acc,
                Ok(v) => match crate::stub::find_type(v.stub.types, rid.id()) {
                    None => acc,
                    Some(d) => if fuel == 0 {
                        acc
                    } else {
                        gather(
                            project_contractive(e1),
                            own,
                            (fuel - 1) as nat,
                            acc.push((rid.module, d)),
                            d.body,
                        )
                    },
                },
            }
        },
    };
    match referenced(t) {
        Some(rid) => {
            lemma_contractive_frame(e1, e2, ds, rid.module);
            if !(rid.module == own || crate::pipeline::holds_foreign(acc, rid)) {
                match spec_contractive(e1, rid.module) {
                    Ok(v) => {
                        lemma_first_where(v.stub.types, |d: TypeDeclV| d.id == rid.id());
                        match crate::stub::find_type(v.stub.types, rid.id()) {
                            Some(d) => {
                                if fuel > 0 {
                                    lemma_gather_frame(
                                        e1,
                                        e2,
                                        ds,
                                        own,
                                        (fuel - 1) as nat,
                                        acc.push((rid.module, d)),
                                        d.body,
                                    );
                                }
                            },
                            None => {},
                        }
                    },
                    Err(_) => {},
                }
            }
        },
        None => {},
    }
    lemma_gather_all_frame(e1, e2, ds, own, fuel, here, t.args, 0);
}

/// The same for a list of type expressions.
pub proof fn lemma_gather_all_frame(
    e1: Converted,
    e2: Converted,
    ds: Seq<Seq<char>>,
    own: Seq<char>,
    fuel: nat,
    acc: Seq<(Seq<char>, TypeDeclV)>,
    ts: Seq<TypeV>,
    i: nat,
)
    requires
        agree(e1, e2, ds),
        closed(e1, ds),
        all_within(ts, ds),
    ensures
        gather_all(project_contractive(e2), own, fuel, acc, ts, i) == gather_all(
            project_contractive(e1),
            own,
            fuel,
            acc,
            ts,
            i,
        ),
    decreases fuel, ts, ts.len() - i,
{
    if i < ts.len() {
        lemma_gather_frame(e1, e2, ds, own, fuel, acc, ts[i as int]);
        lemma_gather_all_frame(
            e1,
            e2,
            ds,
            own,
            fuel,
            gather(project_contractive(e1), own, fuel, acc, ts[i as int]),
            ts,
            i + 1,
        );
    }
}

/// The valid types of a stub are the same under converted stubs that agree
/// on the modules the stub names.
proof fn lemma_valid_types_frame(e1: Converted, e2: Converted, ds: Seq<Seq<char>>, v: VStubV, n: nat)
    requires
        agree(e1, e2, ds),
        closed(e1, ds),
        stub_within(v.stub, ds),
        n <= v.stub.types.len(),
    ensures
        valid_types(project_contractive(e2), v, n) == valid_types(project_contractive(e1), v, n),
    decreases n,
{
    if n > 0 {
        lemma_valid_types_frame(e1, e2, ds, v, (n - 1) as nat);
        let d = v.stub.types[n - 1];
        lemma_valid_frame(
            e1,
            e2,
            ds,
            EXPANSION_LIMIT as nat,
            seq![crate::pipeline::declared(v.stub.module, d.id)],
            d.body,
        );
    }
}

/// The same for the records.
proof fn lemma_valid_records_frame(
    e1: Converted,
    e2: Converted,
    ds: Seq<Seq<char>>,
    src: Seq<RecDeclV>,
    n: nat,
)
    requires
        agree(e1, e2, ds),
        closed(e1, ds),
        forall|i: int| 0 <= i < src.len() ==> all_within(field_types((#[trigger] src[i]).fields), ds),
        n <= src.len(),
    ensures
        valid_records(project_contractive(e2), src, n) == valid_records(
            project_contractive(e1),
            src,
            n,
        ),
    decreases n,
{
    if n > 0 {
        lemma_valid_records_frame(e1, e2, ds, src, (n - 1) as nat);
        lemma_all_valid_frame(
            e1,
            e2,
            ds,
            EXPANSION_LIMIT as nat,
            Seq::empty(),
            field_types(src[n - 1].fields),
            0,
        );
    }
}

/// The same for the plain specs.
proof fn lemma_valid_specs_frame(e1: Converted, e2: Converted, ds: Seq<Seq<char>>, src: Seq<FunSpecV>, n: nat)
    requires
        agree(e1, e2, ds),
        closed(e1, ds),
        forall|i: int| 0 <= i < src.len() ==> within((#[trigger] src[i]).ty, ds),
        n <= src.len(),
    ensures
        valid_specs(project_contractive(e2), src, n) == valid_specs(project_contractive(e1), src, n),
    decreases n,
{
    if n > 0 {
        lemma_valid_specs_frame(e1, e2, ds, src, (n - 1) as nat);
        lemma_valid_frame(e1, e2, ds, EXPANSION_LIMIT as nat, Seq::empty(), src[n - 1].ty);
    }
}

/// The same for overloaded specs and callbacks.
proof fn lemma_valid_signatures_frame(
    e1: Converted,
    e2: Converted,
    ds: Seq<Seq<char>>,
    src: Seq<SignaturesV>,
    n: nat,
)
    requires
        agree(e1, e2, ds),
        closed(e1, ds),
        forall|i: int| 0 <= i < src.len() ==> all_within((#[trigger] src[i]).tys, ds),
        n <= src.len(),
    ensures
        valid_signatures(project_contractive(e2), src, n) == valid_signatures(
            project_contractive(e1),
            src,
            n,
        ),
    decreases n,
{
    if n > 0 {
        lemma_valid_signatures_frame(e1, e2, ds, src, (n - 1) as nat);
        lemma_all_valid_frame(e1, e2, ds, EXPANSION_LIMIT as nat, Seq::empty(), src[n - 1].tys, 0);
    }
}

/// The bodies of types that name only modules of `ds` name only modules of
/// `ds`.
proof fn lemma_bodies_within(types: Seq<TypeDeclV>, ds: Seq<Seq<char>>, n: nat)
    requires
        forall|i: int| 0 <= i < types.len() ==> within((#[trigger] types[i]).body, ds),
        n <= types.len(),
    ensures
        all_within(bodies(types, n), ds),
    decreases n,
{
    if n > 0 {
        lemma_bodies_within(types, ds, (n - 1) as nat);
        assert(within(types[n - 1].body, ds));
    }
}

/// The same for the field types of records.
proof fn lemma_record_types_within(records: Seq<RecDeclV>, ds: Seq<Seq<char>>, n: nat)
    requires
        forall|i: int|
            0 <= i < records.len() ==> all_within(field_types((#[trigger] records[i]).fields), ds),
        n <= records.len(),
    ensures
        all_within(record_types(records, n), ds),
    decreases n,
{
    if n > 0 {
        lemma_record_types_within(records, ds, (n - 1) as nat);
        assert(all_within(field_types(records[n - 1].fields), ds));
    }
}

/// The same for the types of plain specs.
proof fn lemma_spec_types_within(specs: Seq<FunSpecV>, ds: Seq<Seq<char>>, n: nat)
    requires
        forall|i: int| 0 <= i < specs.len() ==> within((#[trigger] specs[i]).ty, ds),
        n <= specs.len(),
    ensures
        all_within(spec_types(specs, n), ds),
    decreases n,
{
    if n > 0 {
        lemma_spec_types_within(specs, ds, (n - 1) as nat);
        assert(within(specs[n - 1].ty, ds));
    }
}

/// The same for the types of overloaded specs and callbacks.
proof fn lemma_signature_types_within(specs: Seq<SignaturesV>, ds: Seq<Seq<char>>, n: nat)
    requires
        forall|i: int| 0 <= i < specs.len() ==> all_within((#[trigger] specs[i]).tys, ds),
        n <= specs.len(),
    ensures
        all_within(signature_types(specs, n), ds),
    decreases n,
{
    if n > 0 {
        lemma_signature_types_within(specs, ds, (n - 1) as nat);
        assert(all_within(specs[n - 1].tys, ds));
    }
}

/// Each of the valid signatures is one of the signatures they were chosen
/// from.
proof fn lemma_signatures_come_from(stubs: crate::pipeline::Contractive, src: Seq<SignaturesV>, n: nat)
    requires
        n <= src.len(),
        valid_signatures(stubs, src, n) is Ok,
    ensures
        forall|k: int|
            0 <= k < valid_signatures(stubs, src, n)->Ok_0.len() ==> exists|s: int|
                0 <= s < src.len() && #[trigger] valid_signatures(stubs, src, n)->Ok_0[k] == src[s],
    decreases n,
{
    if n > 0 {
        lemma_signatures_come_from(stubs, src, (n - 1) as nat);
        let before = valid_signatures(stubs, src, (n - 1) as nat)->Ok_0;
        let now = valid_signatures(stubs, src, n)->Ok_0;
        assert forall|k: int| 0 <= k < now.len() implies exists|s: int|
            0 <= s < src.len() && #[trigger] now[k] == src[s] by {
            if k < before.len() {
                let s = choose|s: int| 0 <= s < src.len() && before[k] == src[s];
                assert(now[k] == src[s]);
            } else {
                assert(now[k] == src[n - 1]);
            }
        }
    }
}

/// A stub whose declarations are drawn from those of a stub within `ds` is
/// within `ds`.
proof fn lemma_drawn_within(own: ModuleStubV, from: ModuleStubV, ds: Seq<Seq<char>>)
    requires
        stub_within(from, ds),
        drawn_from(own.types, from.types, from.types.len(), type_key()),
        drawn_from(own.records, from.records, from.records.len(), record_key()),
        drawn_from(own.specs, from.specs, from.specs.len(), spec_key()),
        drawn_from(
            own.overloaded_specs,
            from.overloaded_specs,
            from.overloaded_specs.len(),
            signatures_key(),
        ),
        forall|k: int|
            0 <= k < own.callbacks.len() ==> exists|s: int|
                0 <= s < from.callbacks.len() && #[trigger] own.callbacks[k] == from.callbacks[s],
    ensures
        stub_within(own, ds),
        all_within(stub_types(own), ds),
{
    assert forall|i: int| 0 <= i < own.types.len() implies within(
        (#[trigger] own.types[i]).body,
        ds,
    ) by {
        let s = choose|s: int| 0 <= s < from.types.len() && own.types[i] == from.types[s];
        assert(within(from.types[s].body, ds));
    }
    assert forall|i: int| 0 <= i < own.records.len() implies all_within(
        field_types((#[trigger] own.records[i]).fields),
        ds,
    ) by {
        let s = choose|s: int| 0 <= s < from.records.len() && own.records[i] == from.records[s];
        assert(all_within(field_types(from.records[s].fields), ds));
    }
    assert forall|i: int| 0 <= i < own.specs.len() implies within((#[trigger] own.specs[i]).ty, ds) by {
        let s = choose|s: int| 0 <= s < from.specs.len() && own.specs[i] == from.specs[s];
        assert(within(from.specs[s].ty, ds));
    }
    assert forall|i: int| 0 <= i < own.overloaded_specs.len() implies all_within(
        (#[trigger] own.overloaded_specs[i]).tys,
        ds,
    ) by {
        let s = choose|s: int|
            0 <= s < from.overloaded_specs.len() && own.overloaded_specs[i]
                == from.overloaded_specs[s];
        assert(all_within(from.overloaded_specs[s].tys, ds));
    }
    assert forall|i: int| 0 <= i < own.callbacks.len() implies all_within(
        (#[trigger] own.callbacks[i]).tys,
        ds,
    ) by {
        let s = choose|s: int| 0 <= s < from.callbacks.len() && own.callbacks[i] == from.callbacks[s];
        assert(all_within(from.callbacks[s].tys, ds));
    }
    lemma_bodies_within(own.types, ds, own.types.len());
    lemma_record_types_within(own.records, ds, own.records.len());
    lemma_spec_types_within(own.specs, ds, own.specs.len());
    lemma_signature_types_within(own.overloaded_specs, ds, own.overloaded_specs.len());
    lemma_signature_types_within(own.callbacks, ds, own.callbacks.len());
}

/// A stub depends only on the modules it stands on: on two sets of converted
/// stubs that agree on a set of modules that holds the module and, with each
/// module, the modules that its forms name, the module's stub is the same.
pub proof fn lemma_transitive_frame(e1: Converted, e2: Converted, ds: Seq<Seq<char>>, module: Seq<char>)
    requires
        agree(e1, e2, ds),
        closed(e1, ds),
        ds.contains(module),
    ensures
        spec_transitive(e2, module) == spec_transitive(e1, module),
{
    lemma_contractive_frame(e1, e2, ds, module);
    match spec_contractive(e1, module) {
        Err(_) => {},
        Ok(v) => {
            let c1 = project_contractive(e1);
            let c2 = project_contractive(e2);
            lemma_valid_types_frame(e1, e2, ds, v, v.stub.types.len());
            lemma_valid_records_frame(e1, e2, ds, v.stub.records, v.stub.records.len());
            lemma_valid_specs_frame(e1, e2, ds, v.stub.specs, v.stub.specs.len());
            lemma_valid_signatures_frame(
                e1,
                e2,
                ds,
                v.stub.overloaded_specs,
                v.stub.overloaded_specs.len(),
            );
            lemma_valid_signatures_frame(e1, e2, ds, v.stub.callbacks, v.stub.callbacks.len());
            if transitive_of(c1, v) is Ok {
                let t = transitive_of(c1, v)->Ok_0;
                let own = ModuleStubV { foreign: Seq::empty(), ..t };
                lemma_stubs_wf(e1, module);
                lemma_valid_types_drawn(c1, v, v.stub.types.len());
                lemma_valid_records_drawn(c1, v.stub.records, v.stub.records.len());
                lemma_valid_specs_drawn(c1, v.stub.specs, v.stub.specs.len());
                lemma_valid_signatures_drawn(
                    c1,
                    v.stub.overloaded_specs,
                    v.stub.overloaded_specs.len(),
                );
                lemma_signatures_come_from(c1, v.stub.callbacks, v.stub.callbacks.len());
                lemma_drawn_within(own, v.stub, ds);
                lemma_gather_all_frame(
                    e1,
                    e2,
                    ds,
                    v.stub.module,
                    EXPANSION_LIMIT as nat,
                    Seq::empty(),
                    stub_types(own),
                    0,
                );
            }
        },
    }
}

} // verus!
