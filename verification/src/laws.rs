//! What holds of the pipeline as a whole.

use crate::change::committed;
use crate::change::change_touches;
use crate::change::draws_on_change;
use crate::change::text_after;
use crate::change::Change;
use crate::ids::FileId;
use crate::pipeline::spec_erl_ast_bytes;
use crate::store::Stage;
use crate::db::spec_custom_fun_specs;
use crate::db::spec_custom_overloaded_fun_specs;
use crate::db::spec_custom_types;
use crate::db::spec_fun_spec;
use crate::db::spec_overloaded_fun_spec;
use crate::db::custom_specs_named;
use crate::db::custom_types_named;
use crate::db::spec_type_decl;
use crate::change::among;
use crate::change::changed_files;
use crate::overrides::type_overrides;
use crate::seqs::first_where;
use crate::seqs::lemma_first_where_at;
use crate::text::has_colon;
use crate::text::lemma_qualified_splits;
use crate::text::lemma_split_injective;
use crate::text::qualified;
use crate::db::reserved_specs;
use crate::db::reserved_types;
use crate::error::ErrorV;
use crate::form::ExternalFormV;
use crate::form::FunSpecV;
use crate::form::RecDeclV;
use crate::form::SignaturesV;
use crate::form::TypeDeclV;
use crate::ids::IdV;
use crate::ids::ProjectId;
use crate::input::Inputs;
use crate::overrides::find_override;
use crate::overrides::lemma_overrides_exclusive;
use crate::overrides::OverrideV;
use crate::form::TypeV;
use crate::ids::RemoteIdV;
use crate::pipeline::productive;
use crate::pipeline::referenced;
use crate::pipeline::holds_foreign;
use crate::pipeline::is_foreign;
use crate::seqs::lemma_first_where_push;
use crate::pipeline::gather;
use crate::pipeline::gather_all;
use crate::pipeline::stub_types;
use crate::pipeline::EXPANSION_LIMIT;
use crate::stub::find_type;
use crate::pipeline::add_new_ids;
use crate::pipeline::expand_form;
use crate::pipeline::expand_forms;
use crate::pipeline::project_contractive;
use crate::pipeline::project_converted;
use crate::pipeline::spec_contractive;
use crate::pipeline::spec_converted_stub;
use crate::pipeline::spec_expand;
use crate::pipeline::spec_transitive;
use crate::pipeline::transitive_of;
use crate::pipeline::valid_records;
use crate::pipeline::valid_signatures;
use crate::pipeline::valid_specs;
use crate::pipeline::valid_types;
use crate::pipeline::verdicts;
use crate::pipeline::Contractive;
use crate::pipeline::Converted;
use crate::pipeline::Expanded;
use crate::seqs::lemma_first_where;
use crate::store::spec_contractive_stub;
use crate::store::spec_expanded_stub;
use crate::store::spec_transitive_stub;
use crate::store::Store;
use crate::stub::find_signatures;
use crate::stub::find_spec;
use crate::stub::ModuleStubV;
use crate::stub::VStubV;
use vstd::prelude::*;

verus! {

/// Asking leaves the answers as they are: a store that only has been
/// asked since gives, for every module and every stage, the stub that it
/// gave before.
pub proof fn lemma_rerun_yields_the_same(before: Store, after: Store, project_id: ProjectId, module: Seq<char>)
    requires
        after.extends(before),
    ensures
        spec_converted_stub(after.inputs(), project_id, module) == spec_converted_stub(
            before.inputs(),
            project_id,
            module,
        ),
        spec_expanded_stub(after.inputs(), project_id, module) == spec_expanded_stub(
            before.inputs(),
            project_id,
            module,
        ),
        spec_contractive_stub(after.inputs(), project_id, module) == spec_contractive_stub(
            before.inputs(),
            project_id,
            module,
        ),
        spec_transitive_stub(after.inputs(), project_id, module) == spec_transitive_stub(
            before.inputs(),
            project_id,
            module,
        ),
{
    after.lemma_extends(before);
}

/// Adding new identifiers to a list without doubles leaves it without doubles.
pub proof fn lemma_add_new_ids_distinct(seen: Seq<IdV>, ids: Seq<IdV>, n: nat)
    requires
        forall|i: int, j: int| 0 <= i < j < seen.len() ==> seen[i] != seen[j],
        n <= ids.len(),
    ensures
        forall|i: int, j: int|
            0 <= i < j < add_new_ids(seen, ids, n).len() ==> add_new_ids(seen, ids, n)[i]
                != add_new_ids(seen, ids, n)[j],
    decreases n,
{
    if n > 0 {
        lemma_add_new_ids_distinct(seen, ids, (n - 1) as nat);
        let before = add_new_ids(seen, ids, (n - 1) as nat);
        if !before.contains(ids[n - 1]) {
            let after = before.push(ids[n - 1]);
            assert forall|i: int, j: int| 0 <= i < j < after.len() implies after[i] != after[j] by {
                if j == before.len() {
                    assert(before.contains(before[i]));
                }
            }
        }
    }
}

/// A form leaves a well-formed stub well-formed, and leaves it its module.
pub proof fn lemma_expand_form_wf(env: Converted, stub: ModuleStubV, form: ExternalFormV)
    requires
        stub.wf(),
        expand_form(env, stub, form) is Ok,
    ensures
        expand_form(env, stub, form)->Ok_0.wf(),
        expand_form(env, stub, form)->Ok_0.module == stub.module,
{
    let next = expand_form(env, stub, form)->Ok_0;
    match form {
        ExternalFormV::TypeDecl(d) => {
            lemma_first_where(stub.types, |x: TypeDeclV| x.id == d.id);
        },
        ExternalFormV::FunSpec(s) => {
            lemma_first_where(stub.specs, |x: FunSpecV| x.id == s.id);
            lemma_first_where(stub.overloaded_specs, |x: SignaturesV| x.id == s.id);
        },
        ExternalFormV::RecDecl(r) => {
            lemma_first_where(stub.records, |x: RecDeclV| x.name == r.name);
        },
        ExternalFormV::OptionalCallbacks(ids) => {
            lemma_add_new_ids_distinct(stub.optional_callbacks, ids, ids.len());
        },
        _ => {},
    }
}

/// The stub that forms make is well-formed: no type, record or function is
/// declared twice in it, and no function has both a plain and an overloaded
/// spec.
pub proof fn lemma_expanded_wf(env: Converted, module: Seq<char>, forms: Seq<ExternalFormV>, n: nat)
    requires
        n <= forms.len(),
        expand_forms(env, module, forms, n) is Ok,
    ensures
        expand_forms(env, module, forms, n)->Ok_0.wf(),
        expand_forms(env, module, forms, n)->Ok_0.module == module,
    decreases n,
{
    if n > 0 {
        lemma_expanded_wf(env, module, forms, (n - 1) as nat);
        lemma_expand_form_wf(
            env,
            expand_forms(env, module, forms, (n - 1) as nat)->Ok_0,
            forms[n - 1],
        );
    }
}

/// Every element of `ts` is one of the first `n` of `src`, and no two
/// elements of `ts` have the same key.
pub open spec fn drawn_from<T, K>(ts: Seq<T>, src: Seq<T>, n: nat, key: spec_fn(T) -> K) -> bool {
    &&& forall|k: int|
        0 <= k < ts.len() ==> exists|s: int| 0 <= s < n && s < src.len() && #[trigger] ts[k] == src[s]
    &&& forall|i: int, j: int| 0 <= i < j < ts.len() ==> key(ts[i]) != key(ts[j])
}

/// Taking or leaving the next element of the source keeps `drawn_from`.
pub proof fn lemma_drawn_step<T, K>(ts: Seq<T>, src: Seq<T>, n: nat, key: spec_fn(T) -> K)
    requires
        0 < n <= src.len(),
        drawn_from(ts, src, (n - 1) as nat, key),
        forall|a: int, b: int| 0 <= a < b < src.len() ==> key(src[a]) != key(src[b]),
    ensures
        drawn_from(ts, src, n, key),
        drawn_from(ts.push(src[n - 1]), src, n, key),
{
    let more = ts.push(src[n - 1]);
    assert forall|k: int| 0 <= k < ts.len() implies exists|s: int|
        0 <= s < n && s < src.len() && #[trigger] ts[k] == src[s] by {
        let s = choose|s: int| 0 <= s < n - 1 && s < src.len() && ts[k] == src[s];
        assert(0 <= s < n && ts[k] == src[s]);
    }
    assert forall|k: int| 0 <= k < more.len() implies exists|s: int|
        0 <= s < n && s < src.len() && #[trigger] more[k] == src[s] by {
        if k < ts.len() {
            let s = choose|s: int| 0 <= s < n - 1 && s < src.len() && ts[k] == src[s];
            assert(0 <= s < n && more[k] == src[s]);
        } else {
            assert(more[k] == src[n - 1]);
        }
    }
    assert forall|i: int, j: int| 0 <= i < j < more.len() implies key(more[i]) != key(more[j]) by {
        if j == ts.len() {
            let s = choose|s: int| 0 <= s < n - 1 && s < src.len() && ts[i] == src[s];
            assert(key(src[s]) != key(src[n - 1]));
        }
    }
}

pub open spec fn type_key() -> spec_fn(TypeDeclV) -> IdV {
    |d: TypeDeclV| d.id
}

pub open spec fn record_key() -> spec_fn(RecDeclV) -> Seq<char> {
    |d: RecDeclV| d.name
}

pub open spec fn spec_key() -> spec_fn(FunSpecV) -> IdV {
    |d: FunSpecV| d.id
}

pub open spec fn signatures_key() -> spec_fn(SignaturesV) -> IdV {
    |d: SignaturesV| d.id
}

pub proof fn lemma_valid_types_drawn(stubs: Contractive, v: VStubV, n: nat)
    requires
        v.stub.wf(),
        n <= v.stub.types.len(),
        valid_types(stubs, v, n) is Ok,
    ensures
        drawn_from(valid_types(stubs, v, n)->Ok_0, v.stub.types, n, type_key()),
    decreases n,
{
    if n > 0 {
        lemma_valid_types_drawn(stubs, v, (n - 1) as nat);
        lemma_drawn_step(
            valid_types(stubs, v, (n - 1) as nat)->Ok_0,
            v.stub.types,
            n,
            type_key(),
        );
    }
}

pub proof fn lemma_valid_records_drawn(stubs: Contractive, src: Seq<RecDeclV>, n: nat)
    requires
        forall|a: int, b: int| 0 <= a < b < src.len() ==> src[a].name != src[b].name,
        n <= src.len(),
        valid_records(stubs, src, n) is Ok,
    ensures
        drawn_from(valid_records(stubs, src, n)->Ok_0, src, n, record_key()),
    decreases n,
{
    if n > 0 {
        lemma_valid_records_drawn(stubs, src, (n - 1) as nat);
        lemma_drawn_step(valid_records(stubs, src, (n - 1) as nat)->Ok_0, src, n, record_key());
    }
}

pub proof fn lemma_valid_specs_drawn(stubs: Contractive, src: Seq<FunSpecV>, n: nat)
    requires
        forall|a: int, b: int| 0 <= a < b < src.len() ==> src[a].id != src[b].id,
        n <= src.len(),
        valid_specs(stubs, src, n) is Ok,
    ensures
        drawn_from(valid_specs(stubs, src, n)->Ok_0, src, n, spec_key()),
    decreases n,
{
    if n > 0 {
        lemma_valid_specs_drawn(stubs, src, (n - 1) as nat);
        lemma_drawn_step(valid_specs(stubs, src, (n - 1) as nat)->Ok_0, src, n, spec_key());
    }
}

pub proof fn lemma_valid_signatures_drawn(stubs: Contractive, src: Seq<SignaturesV>, n: nat)
    requires
        forall|a: int, b: int| 0 <= a < b < src.len() ==> src[a].id != src[b].id,
        n <= src.len(),
        valid_signatures(stubs, src, n) is Ok,
    ensures
        drawn_from(valid_signatures(stubs, src, n)->Ok_0, src, n, signatures_key()),
    decreases n,
{
    if n > 0 {
        lemma_valid_signatures_drawn(stubs, src, (n - 1) as nat);
        lemma_drawn_step(
            valid_signatures(stubs, src, (n - 1) as nat)->Ok_0,
            src,
            n,
            signatures_key(),
        );
    }
}

/// What is left of a well-formed stub is well-formed.
pub proof fn lemma_transitive_of_wf(stubs: Contractive, v: VStubV)
    requires
        v.stub.wf(),
        transitive_of(stubs, v) is Ok,
    ensures
        transitive_of(stubs, v)->Ok_0.wf(),
{
    let t = transitive_of(stubs, v)->Ok_0;
    lemma_valid_types_drawn(stubs, v, v.stub.types.len());
    lemma_valid_records_drawn(stubs, v.stub.records, v.stub.records.len());
    lemma_valid_specs_drawn(stubs, v.stub.specs, v.stub.specs.len());
    lemma_valid_signatures_drawn(stubs, v.stub.overloaded_specs, v.stub.overloaded_specs.len());
    assert forall|i: int, j: int| 0 <= i < j < t.types.len() implies t.types[i].id
        != t.types[j].id by {
        assert(type_key()(t.types[i]) != type_key()(t.types[j]));
    }
    assert forall|i: int, j: int| 0 <= i < j < t.records.len() implies t.records[i].name
        != t.records[j].name by {
        assert(record_key()(t.records[i]) != record_key()(t.records[j]));
    }
    assert forall|i: int, j: int| 0 <= i < j < t.specs.len() implies t.specs[i].id
        != t.specs[j].id by {
        assert(spec_key()(t.specs[i]) != spec_key()(t.specs[j]));
    }
    assert forall|i: int, j: int| 0 <= i < j < t.overloaded_specs.len() implies t.overloaded_specs[i].id
        != t.overloaded_specs[j].id by {
        assert(signatures_key()(t.overloaded_specs[i]) != signatures_key()(t.overloaded_specs[j]));
    }
    assert forall|i: int, j: int|
        0 <= i < t.specs.len() && 0 <= j < t.overloaded_specs.len() implies t.specs[i].id
        != t.overloaded_specs[j].id by {
        let a = choose|s: int| 0 <= s < v.stub.specs.len() && t.specs[i] == v.stub.specs[s];
        let b = choose|s: int|
            0 <= s < v.stub.overloaded_specs.len() && t.overloaded_specs[j]
                == v.stub.overloaded_specs[s];
        assert(v.stub.specs[a].id != v.stub.overloaded_specs[b].id);
    }
}

/// The stub of every stage is well-formed: within it no type, record or
/// function is declared twice, and no function has both a plain and an
/// overloaded spec.
pub proof fn lemma_stubs_wf(env: Converted, module: Seq<char>)
    ensures
        spec_expand(env, module) is Ok ==> spec_expand(env, module)->Ok_0.wf(),
        spec_contractive(env, module) is Ok ==> spec_contractive(env, module)->Ok_0.wf(),
        spec_transitive(env, module) is Ok ==> spec_transitive(env, module)->Ok_0.wf(),
{
    if spec_expand(env, module) is Ok {
        let forms = env(module)->Ok_0;
        lemma_expanded_wf(env, module, forms, forms.len());
        if spec_contractive(env, module) is Ok {
            let v = spec_contractive(env, module)->Ok_0;
            lemma_verdicts_len(crate::pipeline::project_expanded(env), v.stub, v.stub.types.len());
            if spec_transitive(env, module) is Ok {
                lemma_transitive_of_wf(project_contractive(env), v);
            }
        }
    }
}

/// There is one verdict for each type declaration.
pub proof fn lemma_verdicts_len(stubs: Expanded, stub: ModuleStubV, n: nat)
    requires
        n <= stub.types.len(),
        verdicts(stubs, stub, n) is Ok,
    ensures
        verdicts(stubs, stub, n)->Ok_0.len() == n,
    decreases n,
{
    if n > 0 {
        lemma_verdicts_len(stubs, stub, (n - 1) as nat);
    }
}

/// A module that the index does not hold has no stub at any stage: each
/// stage fails with the module's name.
pub proof fn lemma_missing_module(inputs: Inputs, project_id: ProjectId, module: Seq<char>)
    requires
        inputs.spec_file_for_module(project_id, module).is_none(),
    ensures
        spec_converted_stub(inputs, project_id, module) == Err::<Seq<ExternalFormV>, ErrorV>(
            ErrorV::ModuleNotFound(module),
        ),
        spec_transitive_stub(inputs, project_id, module) == Err::<ModuleStubV, ErrorV>(
            ErrorV::ModuleNotFound(module),
        ),
{
}

/// A project without the reserved modules has no overrides, and that is no
/// error.
pub proof fn lemma_missing_overrides(inputs: Inputs, project_id: ProjectId)
    ensures
        inputs.spec_file_for_module(project_id, reserved_types()).is_none() ==> spec_custom_types(
            inputs,
            project_id,
        ) == Ok::<Seq<OverrideV<TypeDeclV>>, ErrorV>(Seq::empty()),
        inputs.spec_file_for_module(project_id, reserved_specs()).is_none()
            ==> spec_custom_fun_specs(inputs, project_id) == Ok::<Seq<OverrideV<FunSpecV>>, ErrorV>(
            Seq::empty(),
        ) && spec_custom_overloaded_fun_specs(inputs, project_id) == Ok::<
            Seq<OverrideV<SignaturesV>>,
            ErrorV,
        >(Seq::empty()),
{
    if inputs.spec_file_for_module(project_id, reserved_types()).is_none() {
        lemma_missing_module(inputs, project_id, reserved_types());
    }
    if inputs.spec_file_for_module(project_id, reserved_specs()).is_none() {
        lemma_missing_module(inputs, project_id, reserved_specs());
    }
}

/// Precedence of overrides. Where the overrides can be had: a function
/// with an overloaded override has no plain spec, and its overloaded spec
/// is the override; a function with a plain override has no overloaded
/// spec, and its plain spec is the override; a function with neither has
/// what its module's transitive stub holds, or the error of that stub.
pub proof fn lemma_override_precedence(
    inputs: Inputs,
    project_id: ProjectId,
    module: Seq<char>,
    id: IdV,
)
    requires
        custom_specs_named(inputs, project_id),
        spec_custom_fun_specs(inputs, project_id) is Ok,
    ensures
        ({
            let plain = spec_custom_fun_specs(inputs, project_id)->Ok_0;
            let overloaded = spec_custom_overloaded_fun_specs(inputs, project_id)->Ok_0;
            let own = spec_transitive_stub(inputs, project_id, module);
            let fun_spec = spec_fun_spec(inputs, project_id, module, id);
            let overloaded_fun_spec = spec_overloaded_fun_spec(inputs, project_id, module, id);
            &&& spec_custom_overloaded_fun_specs(inputs, project_id) is Ok
            &&& find_override(overloaded, module, id).is_some() ==> fun_spec == Ok::<
                Option<FunSpecV>,
                ErrorV,
            >(None) && overloaded_fun_spec == Ok::<Option<SignaturesV>, ErrorV>(
                find_override(overloaded, module, id),
            )
            &&& find_override(plain, module, id).is_some() ==> overloaded_fun_spec == Ok::<
                Option<SignaturesV>,
                ErrorV,
            >(None) && fun_spec == Ok::<Option<FunSpecV>, ErrorV>(find_override(plain, module, id))
            &&& find_override(overloaded, module, id).is_none() && find_override(
                plain,
                module,
                id,
            ).is_none() ==> match own {
                Ok(stub) => fun_spec == Ok::<Option<FunSpecV>, ErrorV>(find_spec(stub.specs, id))
                    && overloaded_fun_spec == Ok::<Option<SignaturesV>, ErrorV>(
                    find_signatures(stub.overloaded_specs, id),
                ),
                Err(e) => fun_spec == Err::<Option<FunSpecV>, ErrorV>(e) && overloaded_fun_spec
                    == Err::<Option<SignaturesV>, ErrorV>(e),
            }
        }),
{
    let reserved = spec_transitive_stub(inputs, project_id, reserved_specs());
    match reserved {
        Ok(stub) => {
            lemma_stubs_wf(project_converted(inputs, project_id), reserved_specs());
            lemma_overrides_exclusive(stub, module, id);
        },
        Err(_) => {},
    }
}

/// An override in one form hides the other form, whatever else is held:
/// a function with an overloaded override has no plain spec, whatever the
/// plain overrides and its module hold; a function with a plain override
/// has no overloaded spec, whatever the overloaded overrides and its module
/// hold.
pub proof fn lemma_override_hides_the_other_form(
    inputs: Inputs,
    project_id: ProjectId,
    module: Seq<char>,
    id: IdV,
)
    ensures
        match spec_custom_overloaded_fun_specs(inputs, project_id) {
            Ok(overloaded) => find_override(overloaded, module, id).is_some() ==> spec_fun_spec(
                inputs,
                project_id,
                module,
                id,
            ) == Ok::<Option<FunSpecV>, ErrorV>(None),
            Err(_) => true,
        },
        match spec_custom_fun_specs(inputs, project_id) {
            Ok(plain) => find_override(plain, module, id).is_some() ==> spec_overloaded_fun_spec(
                inputs,
                project_id,
                module,
                id,
            ) == Ok::<Option<SignaturesV>, ErrorV>(None),
            Err(_) => true,
        },
{
}

/// A type override wins. Where the transitive stub of the reserved module
/// holds a type under the name `module:name`, and each of its types has a
/// name with a colon, that declaration is the type `name` of `module`,
/// whatever the module itself declares and whether or not it exists.
pub proof fn lemma_type_override_wins(
    inputs: Inputs,
    project_id: ProjectId,
    module: Seq<char>,
    id: IdV,
    i: int,
)
    requires
        !has_colon(module),
        custom_types_named(inputs, project_id),
        spec_transitive_stub(inputs, project_id, reserved_types()) is Ok,
        0 <= i < spec_transitive_stub(inputs, project_id, reserved_types())->Ok_0.types.len(),
        spec_transitive_stub(inputs, project_id, reserved_types())->Ok_0.types[i].id == (IdV {
            name: qualified(module, id.name),
            arity: id.arity,
        }),
    ensures
        spec_type_decl(inputs, project_id, module, id) == Ok::<Option<TypeDeclV>, ErrorV>(
            Some(spec_transitive_stub(inputs, project_id, reserved_types())->Ok_0.types[i]),
        ),
{
    let stub = spec_transitive_stub(inputs, project_id, reserved_types())->Ok_0;
    let overrides = type_overrides(stub.types);
    let p = |o: OverrideV<TypeDeclV>| o.module == module && o.id == id;
    lemma_stubs_wf(project_converted(inputs, project_id), reserved_types());
    lemma_qualified_splits(module, id.name);
    assert(p(overrides[i]));
    lemma_first_where(overrides, p);
    let k = first_where(overrides, p).unwrap();
    assert(p(overrides[k]));
    lemma_split_injective(stub.types[k].id.name, stub.types[i].id.name);
    assert(stub.types[k].id == stub.types[i].id);
    assert(k == i);
    lemma_first_where_at(overrides, p, i);
}

/// A reference to a type that is being unfolded is not productive: a type
/// that stands for itself, with no constructor between, never reaches one.
pub proof fn lemma_reentry_is_not_productive(
    stubs: Expanded,
    fuel: nat,
    visited: Seq<RemoteIdV>,
    t: TypeV,
)
    requires
        referenced(t).is_some(),
        visited.contains(referenced(t).unwrap()),
    ensures
        productive(stubs, fuel, visited, t) == Ok::<bool, ErrorV>(false),
{
}

/// A type expression with a constructor at its head is productive, whatever
/// stands below the constructor.
pub proof fn lemma_constructor_is_productive(
    stubs: Expanded,
    fuel: nat,
    visited: Seq<RemoteIdV>,
    t: TypeV,
)
    requires
        !(t.head is Union),
        !(t.head is Remote),
    ensures
        productive(stubs, fuel, visited, t) == Ok::<bool, ErrorV>(true),
{
}

/// Every declaration held is a declaration of another module, and is what
/// that module's contractive stub holds under the declaration's name.
pub open spec fn foreign_sound(
    stubs: Contractive,
    own: Seq<char>,
    acc: Seq<(Seq<char>, TypeDeclV)>,
) -> bool {
    forall|k: int|
        0 <= k < acc.len() ==> (#[trigger] acc[k]).0 != own && match stubs(acc[k].0) {
            Ok(v) => find_type(v.stub.types, acc[k].1.id) == Some(acc[k].1),
            Err(_) => false,
        }
}

pub proof fn lemma_gather_sound(
    stubs: Contractive,
    own: Seq<char>,
    fuel: nat,
    acc: Seq<(Seq<char>, TypeDeclV)>,
    t: TypeV,
)
    requires
        foreign_sound(stubs, own, acc),
    ensures
        foreign_sound(stubs, own, gather(stubs, own, fuel, acc, t)),
    decreases fuel, t, 0nat,
{
    let here = match referenced(t) {
        None => acc,
        Some(rid) => if rid.module == own || crate::pipeline::holds_foreign(acc, rid) {
            acc
        } else {
            match stubs(rid.module) {
                Err(_) => acc,
                Ok(v) => match find_type(v.stub.types, rid.id()) {
                    None => acc,
                    Some(d) => if fuel == 0 {
                        acc
                    } else {
                        gather(stubs, own, (fuel - 1) as nat, acc.push((rid.module, d)), d.body)
                    },
                },
            }
        },
    };
    match referenced(t) {
        Some(rid) => {
            if !(rid.module == own || crate::pipeline::holds_foreign(acc, rid)) {
                match stubs(rid.module) {
                    Ok(v) => match find_type(v.stub.types, rid.id()) {
                        Some(d) => {
                            if fuel != 0 {
                                lemma_first_where(v.stub.types, |x: TypeDeclV| x.id == rid.id());
                                let more = acc.push((rid.module, d));
                                assert forall|k: int| 0 <= k < more.len() implies (
                                #[trigger] more[k]).0 != own && match stubs(more[k].0) {
                                    Ok(v) => find_type(v.stub.types, more[k].1.id) == Some(more[k].1),
                                    Err(_) => false,
                                } by {
                                    if k < acc.len() {
                                        assert(more[k] == acc[k]);
                                    }
                                }
                                lemma_gather_sound(stubs, own, (fuel - 1) as nat, more, d.body);
                            }
                        },
                        None => {},
                    },
                    Err(_) => {},
                }
            }
        },
        None => {},
    }
    lemma_gather_all_sound(stubs, own, fuel, here, t.args, 0);
}

pub proof fn lemma_gather_all_sound(
    stubs: Contractive,
    own: Seq<char>,
    fuel: nat,
    acc: Seq<(Seq<char>, TypeDeclV)>,
    ts: Seq<TypeV>,
    i: nat,
)
    requires
        foreign_sound(stubs, own, acc),
    ensures
        foreign_sound(stubs, own, gather_all(stubs, own, fuel, acc, ts, i)),
    decreases fuel, ts, ts.len() - i,
{
    if i < ts.len() {
        lemma_gather_sound(stubs, own, fuel, acc, ts[i as int]);
        lemma_gather_all_sound(stubs, own, fuel, gather(stubs, own, fuel, acc, ts[i as int]), ts, i + 1);
    }
}

/// The foreign declarations of a transitive stub are declarations of the
/// modules they are filed under, as those modules' contractive stubs hold
/// them, and none is of the stub's own module.
pub proof fn lemma_foreign_sound(stubs: Contractive, v: VStubV)
    requires
        transitive_of(stubs, v) is Ok,
    ensures
        foreign_sound(stubs, v.stub.module, transitive_of(stubs, v)->Ok_0.foreign),
{
    let t = transitive_of(stubs, v)->Ok_0;
    let own = ModuleStubV { foreign: Seq::empty(), ..t };
    lemma_gather_all_sound(
        stubs,
        v.stub.module,
        EXPANSION_LIMIT as nat,
        Seq::empty(),
        stub_types(own),
        0,
    );
}

/// Whether a type expression names the type, at its head or below it.
pub open spec fn names(t: TypeV, rid: RemoteIdV) -> bool
    decreases t,
{
    referenced(t) == Some(rid) || exists|i: int|
        0 <= i < t.args.len() && names(#[trigger] t.args[i], rid)
}

/// Whether the module of a type declares it.
pub open spec fn can_be_had(stubs: Contractive, rid: RemoteIdV) -> bool {
    match stubs(rid.module) {
        Ok(v) => find_type(v.stub.types, rid.id()).is_some(),
        Err(_) => false,
    }
}

/// Whether the declaration of a type is held where there is one to hold:
/// a type of the module itself is not held, nor one that its module does
/// not declare.
pub open spec fn held_if_had(
    stubs: Contractive,
    own: Seq<char>,
    acc: Seq<(Seq<char>, TypeDeclV)>,
    rid: RemoteIdV,
) -> bool {
    rid.module == own || holds_foreign(acc, rid) || !can_be_had(stubs, rid)
}

/// What is held stays held when more is gathered.
pub proof fn lemma_gather_keeps(
    stubs: Contractive,
    own: Seq<char>,
    fuel: nat,
    acc: Seq<(Seq<char>, TypeDeclV)>,
    t: TypeV,
    rid: RemoteIdV,
)
    requires
        holds_foreign(acc, rid),
    ensures
        holds_foreign(gather(stubs, own, fuel, acc, t), rid),
    decreases fuel, t, 0nat,
{
    let here = match referenced(t) {
        None => acc,
        Some(r) => if r.module == own || holds_foreign(acc, r) {
            acc
        } else {
            match stubs(r.module) {
                Err(_) => acc,
                Ok(v) => match find_type(v.stub.types, r.id()) {
                    None => acc,
                    Some(d) => if fuel == 0 {
                        acc
                    } else {
                        gather(stubs, own, (fuel - 1) as nat, acc.push((r.module, d)), d.body)
                    },
                },
            }
        },
    };
    match referenced(t) {
        Some(r) => {
            if !(r.module == own || holds_foreign(acc, r)) {
                match stubs(r.module) {
                    Ok(v) => match find_type(v.stub.types, r.id()) {
                        Some(d) => {
                            if fuel != 0 {
                                lemma_first_where_push(acc, is_foreign(rid), (r.module, d));
                                lemma_gather_keeps(
                                    stubs,
                                    own,
                                    (fuel - 1) as nat,
                                    acc.push((r.module, d)),
                                    d.body,
                                    rid,
                                );
                            }
                        },
                        None => {},
                    },
                    Err(_) => {},
                }
            }
        },
        None => {},
    }
    lemma_gather_all_keeps(stubs, own, fuel, here, t.args, 0, rid);
}

/// The same for the types of a list.
pub proof fn lemma_gather_all_keeps(
    stubs: Contractive,
    own: Seq<char>,
    fuel: nat,
    acc: Seq<(Seq<char>, TypeDeclV)>,
    ts: Seq<TypeV>,
    i: nat,
    rid: RemoteIdV,
)
    requires
        holds_foreign(acc, rid),
    ensures
        holds_foreign(gather_all(stubs, own, fuel, acc, ts, i), rid),
    decreases fuel, ts, ts.len() - i,
{
    if i < ts.len() {
        lemma_gather_keeps(stubs, own, fuel, acc, ts[i as int], rid);
        lemma_gather_all_keeps(
            stubs,
            own,
            fuel,
            gather(stubs, own, fuel, acc, ts[i as int]),
            ts,
            i + 1,
            rid,
        );
    }
}

/// After a type expression has been looked through, the declaration of
/// each type that it names is held, where there is one to hold.
pub proof fn lemma_gather_holds(
    stubs: Contractive,
    own: Seq<char>,
    fuel: nat,
    acc: Seq<(Seq<char>, TypeDeclV)>,
    t: TypeV,
    rid: RemoteIdV,
)
    requires
        fuel > 0,
        names(t, rid),
    ensures
        held_if_had(stubs, own, gather(stubs, own, fuel, acc, t), rid),
    decreases t, 0nat,
{
    let here = match referenced(t) {
        None => acc,
        Some(r) => if r.module == own || holds_foreign(acc, r) {
            acc
        } else {
            match stubs(r.module) {
                Err(_) => acc,
                Ok(v) => match find_type(v.stub.types, r.id()) {
                    None => acc,
                    Some(d) => if fuel == 0 {
                        acc
                    } else {
                        gather(stubs, own, (fuel - 1) as nat, acc.push((r.module, d)), d.body)
                    },
                },
            }
        },
    };
    if referenced(t) == Some(rid) {
        if !(rid.module == own || holds_foreign(acc, rid)) {
            match stubs(rid.module) {
                Ok(v) => match find_type(v.stub.types, rid.id()) {
                    Some(d) => {
                        lemma_first_where(v.stub.types, |x: TypeDeclV| x.id == rid.id());
                        let more = acc.push((rid.module, d));
                        lemma_first_where_push(acc, is_foreign(rid), (rid.module, d));
                        assert(is_foreign(rid)((rid.module, d)));
                        assert(holds_foreign(more, rid));
                        lemma_gather_keeps(stubs, own, (fuel - 1) as nat, more, d.body, rid);
                        lemma_gather_all_keeps(stubs, own, fuel, here, t.args, 0, rid);
                    },
                    None => {},
                },
                Err(_) => {},
            }
        } else if holds_foreign(acc, rid) {
            lemma_gather_all_keeps(stubs, own, fuel, here, t.args, 0, rid);
        }
    } else {
        let k = choose|k: int| 0 <= k < t.args.len() && names(#[trigger] t.args[k], rid);
        lemma_gather_all_holds(stubs, own, fuel, here, t.args, 0, k, rid);
    }
}

/// The same for the types of a list, from position `i` on.
pub proof fn lemma_gather_all_holds(
    stubs: Contractive,
    own: Seq<char>,
    fuel: nat,
    acc: Seq<(Seq<char>, TypeDeclV)>,
    ts: Seq<TypeV>,
    i: nat,
    k: int,
    rid: RemoteIdV,
)
    requires
        fuel > 0,
        i <= k < ts.len(),
        names(ts[k], rid),
    ensures
        held_if_had(stubs, own, gather_all(stubs, own, fuel, acc, ts, i), rid),
    decreases ts, ts.len() - i,
{
    let next = gather(stubs, own, fuel, acc, ts[i as int]);
    if i == k {
        lemma_gather_holds(stubs, own, fuel, acc, ts[k], rid);
        if holds_foreign(next, rid) {
            lemma_gather_all_keeps(stubs, own, fuel, next, ts, i + 1, rid);
        }
    } else {
        lemma_gather_all_holds(stubs, own, fuel, next, ts, i + 1, k, rid);
    }
}

/// A transitive stub holds what its own declarations stand on: of each
/// type of another module that one of them names, the declaration is held
/// with the stub, where that module declares the type.
pub proof fn lemma_foreign_holds_what_is_named(stubs: Contractive, v: VStubV, k: int, rid: RemoteIdV)
    requires
        transitive_of(stubs, v) is Ok,
        0 <= k < stub_types(transitive_of(stubs, v)->Ok_0).len(),
        names(stub_types(transitive_of(stubs, v)->Ok_0)[k], rid),
    ensures
        held_if_had(stubs, v.stub.module, transitive_of(stubs, v)->Ok_0.foreign, rid),
{
    let t = transitive_of(stubs, v)->Ok_0;
    let own = ModuleStubV { foreign: Seq::empty(), ..t };
    assert(stub_types(own) == stub_types(t));
    lemma_gather_all_holds(
        stubs,
        v.stub.module,
        EXPANSION_LIMIT as nat,
        Seq::empty(),
        stub_types(own),
        0,
        k,
        rid,
    );
}

/// A committed change ends the work begun before it: the revision at which
/// that work began is no longer the store's, so that what the work yields
/// is turned away.
pub proof fn lemma_change_cancels(
    before: Store,
    change: Change,
    resolved: Seq<Vec<Option<FileId>>>,
    after: Store,
)
    requires
        committed(before, change, resolved, after),
    ensures
        after.revision() != before.revision(),
        after.revision() > before.revision(),
{
}

/// After a committed change a file has the text of the last change to it,
/// and a module whose parse result drew on a changed file has to be parsed
/// again before anything is said of it.
pub proof fn lemma_change_invalidates(
    before: Store,
    change: Change,
    resolved: Seq<Vec<Option<FileId>>>,
    after: Store,
    project_id: ProjectId,
    module: Seq<char>,
    file_id: FileId,
)
    requires
        committed(before, change, resolved, after),
        after.inputs().spec_file_for_module(project_id, module) == Some(file_id),
        draws_on_change(
            before.inputs(),
            change.files_changed@,
            file_id,
            change.files_changed@.len(),
        ),
    ensures
        spec_erl_ast_bytes(after.inputs(), project_id, module) == Err::<Seq<u8>, ErrorV>(
            ErrorV::AstUnavailable(file_id),
        ),
        forall|f: FileId|
            after.inputs().spec_file_text(f) == text_after(
                before.inputs().spec_file_text(f),
                change.files_changed@,
                f,
                change.files_changed@.len(),
            ),
{
    assert(after.inputs().spec_module_ast(file_id).is_none());
}

/// A change of texts alone leaves what is kept for the projects that no
/// changed file touches: their stubs are not computed again.
pub proof fn lemma_change_spares_the_rest(
    before: Store,
    change: Change,
    resolved: Seq<Vec<Option<FileId>>>,
    after: Store,
    stage: Stage,
    project_id: ProjectId,
    module: Seq<char>,
)
    requires
        committed(before, change, resolved, after),
        change.roots.is_none(),
        change.app_structure.is_none(),
        !change_touches(
            after.inputs(),
            change.files_changed@,
            project_id,
            change.files_changed@.len(),
        ),
        before.cached(stage, project_id, module),
    ensures
        after.cached(stage, project_id, module),
        after.recomputations() == before.recomputations(),
{
}

/// A change of texts alone leaves the stub of a module in place at each
/// stage, also where it touches the module's project, as long as the stub
/// is kept clear of files that the changed ones are among: the stub is then
/// not computed again, and stays clear of these files.
pub proof fn lemma_change_spares_what_stands_apart(
    before: Store,
    change: Change,
    resolved: Seq<Vec<Option<FileId>>>,
    after: Store,
    stage: Stage,
    project_id: ProjectId,
    module: Seq<char>,
    files: Seq<FileId>,
)
    requires
        committed(before, change, resolved, after),
        change.roots.is_none(),
        change.app_structure.is_none(),
        among(changed_files(change.files_changed@), files),
        before.pinned_clear_of(stage, project_id, module, files),
    ensures
        after.pinned_clear_of(stage, project_id, module, files),
        after.pinned(stage, project_id, module),
{
    after.lemma_clear_is_pinned(stage, project_id, module, files);
}

} // verus!
