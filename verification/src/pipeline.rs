//! What the four stages of the pipeline compute, as functions of the inputs.
//!
//! A stage reads other modules only through the stage before it, so each
//! stage is a function of the project's converted stubs and a module's name.

use crate::error::is_pending;
use crate::error::ErrorV;
use crate::form::ExternalFormV;
use crate::form::HeadV;
use crate::form::RecDeclV;
use crate::form::SignaturesV;
use crate::form::TypeV;
use crate::form::FunSpecV;
use crate::form::TypeDeclV;
use crate::form::spec_is_non_stub_form;
use crate::form::AST;
use crate::ids::FileId;
use crate::ids::IdV;
use crate::ids::ProjectId;
use crate::ids::RemoteIdV;
use crate::input::AppType;
use crate::input::Inputs;
use crate::nodes::spec_from_bytes;
use crate::seqs::first_where;
use crate::stub::find_record;
use crate::stub::find_signatures;
use crate::stub::find_spec;
use crate::stub::find_type;
use crate::stub::ModuleStubV;
use crate::stub::VStubV;
use vstd::prelude::*;

verus! {

/// How many declarations deep a type reference is unfolded. A declaration
/// that needs more counts as not productive, and as not valid.
pub const EXPANSION_LIMIT: usize = 128;

/// The converted stubs of a project, by module.
pub type Converted = spec_fn(Seq<char>) -> Result<Seq<ExternalFormV>, ErrorV>;

/// The expanded stubs of a project, by module.
pub type Expanded = spec_fn(Seq<char>) -> Result<ModuleStubV, ErrorV>;

/// The contractive stubs of a project, by module.
pub type Contractive = spec_fn(Seq<char>) -> Result<VStubV, ErrorV>;

// ------------------------------------------------------------------ stage 1

/// The path of a module's compiled artifact below a directory.
pub open spec fn beam_path(ebin: Seq<char>, module: Seq<char>) -> Seq<char> {
    ebin + "/"@ + module + ".beam"@
}

/// Where a module's compiled artifact lies, for the modules that are read
/// from one: those of an application of the platform with a known directory
/// of artifacts.
pub open spec fn spec_from_beam_path(inputs: Inputs, file_id: FileId, module: Seq<char>) -> Option<
    Seq<char>,
> {
    match inputs.spec_file_app_data(file_id) {
        None => None,
        Some(app) => if app.app_type != AppType::Otp {
            None
        } else {
            match app.ebin_path {
                None => None,
                Some(ebin) => Some(beam_path(ebin@, module)),
            }
        },
    }
}

/// The first `n` forms without those that `skip` holds of.
pub open spec fn forms_without(
    forms: Seq<ExternalFormV>,
    skip: spec_fn(ExternalFormV) -> bool,
    n: nat,
) -> Seq<ExternalFormV>
    decreases n,
{
    if n == 0 || n > forms.len() {
        Seq::empty()
    } else {
        let before = forms_without(forms, skip, (n - 1) as nat);
        if skip(forms[n - 1]) {
            before
        } else {
            before.push(forms[n - 1])
        }
    }
}

/// The forms that bear declarations, in order.
pub open spec fn stub_forms(forms: Seq<ExternalFormV>) -> Seq<ExternalFormV> {
    forms_without(forms, |f: ExternalFormV| spec_is_non_stub_form(f), forms.len())
}

/// The forms that bear no declarations, in order.
pub open spec fn non_stub_forms(forms: Seq<ExternalFormV>) -> Seq<ExternalFormV> {
    forms_without(forms, |f: ExternalFormV| !spec_is_non_stub_form(f), forms.len())
}

pub open spec fn malformed_tree() -> ErrorV {
    ErrorV::TypeConversionError("malformed syntax tree"@)
}

/// The forms that the bytes hold; with `filter_stub`, those of them that
/// bear declarations.
pub open spec fn spec_ast_from_bytes(bytes: Seq<u8>, filter_stub: bool) -> Result<
    Seq<ExternalFormV>,
    ErrorV,
> {
    match spec_from_bytes::<AST>(bytes) {
        None => Err(malformed_tree()),
        Some(forms) => Ok(
            if filter_stub {
                stub_forms(forms)
            } else {
                forms
            },
        ),
    }
}

/// The bytes that the parser made of a module's file.
pub open spec fn spec_erl_ast_bytes(inputs: Inputs, project_id: ProjectId, module: Seq<char>) -> Result<
    Seq<u8>,
    ErrorV,
> {
    match inputs.spec_file_for_module(project_id, module) {
        None => Err(ErrorV::ModuleNotFound(module)),
        Some(file_id) => match inputs.spec_module_ast(file_id) {
            None => Err(ErrorV::AstUnavailable(file_id)),
            Some(result) => if result.spec_is_ok() {
                Ok(result.ast@)
            } else {
                Err(ErrorV::ParseError(result.errors@[0]@))
            },
        },
    }
}

/// Stage 1: the declaration-bearing forms of a module, from its compiled
/// artifact where it is read from one, else from what the parser made of
/// its file.
pub open spec fn spec_converted_stub(inputs: Inputs, project_id: ProjectId, module: Seq<char>) -> Result<
    Seq<ExternalFormV>,
    ErrorV,
> {
    match inputs.spec_file_for_module(project_id, module) {
        None => Err(ErrorV::ModuleNotFound(module)),
        Some(file_id) => match spec_from_beam_path(inputs, file_id, module) {
            Some(path) => match inputs.spec_beam(path) {
                Some(contents) => spec_ast_from_bytes(contents, true),
                None => Err(ErrorV::BEAMNotFound(path)),
            },
            None => match spec_erl_ast_bytes(inputs, project_id, module) {
                Err(e) => Err(e),
                Ok(bytes) => spec_ast_from_bytes(bytes, true),
            },
        },
    }
}

/// The converted stubs of a project.
pub open spec fn project_converted(inputs: Inputs, project_id: ProjectId) -> Converted {
    |module: Seq<char>| spec_converted_stub(inputs, project_id, module)
}

// ------------------------------------------------------------------ stage 2

/// Whether a form declares the type.
pub open spec fn declares(id: IdV) -> spec_fn(ExternalFormV) -> bool {
    |f: ExternalFormV|
        match f {
            ExternalFormV::TypeDecl(d) => d.id == id,
            _ => false,
        }
}

/// Whether a form exports the type.
pub open spec fn exports(id: IdV) -> spec_fn(ExternalFormV) -> bool {
    |f: ExternalFormV|
        match f {
            ExternalFormV::ExportType(ids) => ids.contains(id),
            _ => false,
        }
}

/// Whether a type is declared among the forms.
pub open spec fn declares_type(forms: Seq<ExternalFormV>, id: IdV) -> bool {
    first_where(forms, declares(id)).is_some()
}

/// Whether a type is exported among the forms.
pub open spec fn exports_type(forms: Seq<ExternalFormV>, id: IdV) -> bool {
    first_where(forms, exports(id)).is_some()
}

/// Whether a type can be named: from its own module if it is declared, from
/// another if it is declared and exported.
pub open spec fn type_visible(forms: Seq<ExternalFormV>, id: IdV, from_inside: bool) -> bool {
    declares_type(forms, id) && (from_inside || exports_type(forms, id))
}

/// Whether each head has the arguments it can have: a built-in type, an atom
/// and a variable none, a list one, a function at least one; and no node has
/// more arguments than an arity can count.
pub open spec fn well_shaped(t: TypeV) -> bool
    decreases t,
{
    &&& t.args.len() <= u32::MAX
    &&& match t.head {
        HeadV::Builtin(_) => t.args.len() == 0,
        HeadV::AtomLit(_) => t.args.len() == 0,
        HeadV::Var(_) => t.args.len() == 0,
        HeadV::List => t.args.len() == 1,
        HeadV::Fun => t.args.len() >= 1,
        _ => true,
    }
    &&& forall|i: int| 0 <= i < t.args.len() ==> well_shaped(#[trigger] t.args[i])
}

pub open spec fn all_well_shaped(ts: Seq<TypeV>) -> bool {
    forall|i: int| 0 <= i < ts.len() ==> well_shaped(#[trigger] ts[i])
}

/// The type expression with each reference to a type of the same module
/// made a reference to that type of `module`.
pub open spec fn expand_type(module: Seq<char>, t: TypeV) -> TypeV
    decreases t,
{
    TypeV {
        head: match t.head {
            HeadV::Local(name) => HeadV::Remote(module, name),
            h => h,
        },
        args: Seq::new(
            t.args.len(),
            |i: int|
                if 0 <= i < t.args.len() {
                    expand_type(module, t.args[i])
                } else {
                    t
                },
        ),
    }
}

pub open spec fn expand_types(module: Seq<char>, ts: Seq<TypeV>) -> Seq<TypeV> {
    Seq::new(ts.len(), |i: int| expand_type(module, ts[i]))
}

/// The type that a reference names. An expression with more arguments than
/// an arity can count names none.
pub open spec fn referenced(t: TypeV) -> Option<RemoteIdV> {
    match t.head {
        HeadV::Remote(module, name) => if t.args.len() <= u32::MAX {
            Some(RemoteIdV { module, name, arity: t.args.len() as u32 })
        } else {
            None
        },
        _ => None,
    }
}

pub open spec fn conversion_error(name: Seq<char>) -> ErrorV {
    ErrorV::TypeConversionError(name)
}

/// Whether every type that `t` names can be named from `module`. A named
/// module that waits for work fails the question with its error; one that
/// cannot be had at all fails it with a conversion error that names the module.
pub open spec fn resolves(env: Converted, module: Seq<char>, t: TypeV) -> Result<bool, ErrorV>
    decreases t, 0nat,
{
    let here = match referenced(t) {
        Some(rid) => match env(rid.module) {
            Err(e) => if is_pending(e) {
                Err(e)
            } else {
                Err(conversion_error(rid.module))
            },
            Ok(forms) => Ok(type_visible(forms, rid.id(), rid.module == module)),
        },
        None => Ok(true),
    };
    match here {
        Ok(true) => all_resolve(env, module, t.args, 0),
        other => other,
    }
}

/// `resolves` for the types of a list from position `i` on: the first type
/// that does not resolve, or that fails, decides.
pub open spec fn all_resolve(env: Converted, module: Seq<char>, ts: Seq<TypeV>, i: nat) -> Result<
    bool,
    ErrorV,
>
    decreases ts, ts.len() - i,
{
    if i >= ts.len() {
        Ok(true)
    } else {
        match resolves(env, module, ts[i as int]) {
            Ok(true) => all_resolve(env, module, ts, i + 1),
            other => other,
        }
    }
}

/// The types of a record's fields.
pub open spec fn field_types(fields: Seq<(Seq<char>, TypeV)>) -> Seq<TypeV> {
    Seq::new(fields.len(), |i: int| fields[i].1)
}

/// The fields with the given types in place of their own.
pub open spec fn with_field_types(fields: Seq<(Seq<char>, TypeV)>, tys: Seq<TypeV>) -> Seq<
    (Seq<char>, TypeV),
> {
    Seq::new(fields.len(), |i: int| (fields[i].0, tys[i]))
}

/// The identifiers of `ids` that are not yet in `seen`, added to it in order.
pub open spec fn add_new_ids(seen: Seq<IdV>, ids: Seq<IdV>, n: nat) -> Seq<IdV>
    decreases n,
{
    if n == 0 || n > ids.len() {
        seen
    } else {
        let before = add_new_ids(seen, ids, (n - 1) as nat);
        if before.contains(ids[n - 1]) {
            before
        } else {
            before.push(ids[n - 1])
        }
    }
}


/// What one form adds to a stub. A declaration with an ill-shaped type, a
/// function spec without a signature, and a second declaration of a type, a
/// record or a function are conversion errors that name the declaration. A
/// declaration that names a type that cannot be named from here is left out.
pub open spec fn expand_form(env: Converted, stub: ModuleStubV, form: ExternalFormV) -> Result<
    ModuleStubV,
    ErrorV,
> {
    match form {
        ExternalFormV::TypeDecl(d) => if !well_shaped(d.body) || find_type(stub.types, d.id).is_some() {
            Err(conversion_error(d.id.name))
        } else {
            let body = expand_type(stub.module, d.body);
            match resolves(env, stub.module, body) {
                Err(e) => Err(e),
                Ok(false) => Ok(stub),
                Ok(true) => Ok(
                    ModuleStubV {
                        types: stub.types.push(TypeDeclV { id: d.id, params: d.params, body }),
                        ..stub
                    },
                ),
            }
        },
        ExternalFormV::FunSpec(s) => if s.tys.len() == 0 || !all_well_shaped(s.tys) || find_spec(
            stub.specs,
            s.id,
        ).is_some() || find_signatures(stub.overloaded_specs, s.id).is_some() {
            Err(conversion_error(s.id.name))
        } else {
            let tys = expand_types(stub.module, s.tys);
            match all_resolve(env, stub.module, tys, 0) {
                Err(e) => Err(e),
                Ok(false) => Ok(stub),
                Ok(true) => if tys.len() == 1 {
                    Ok(ModuleStubV { specs: stub.specs.push(FunSpecV { id: s.id, ty: tys[0] }), ..stub })
                } else {
                    Ok(
                        ModuleStubV {
                            overloaded_specs: stub.overloaded_specs.push(
                                SignaturesV { id: s.id, tys },
                            ),
                            ..stub
                        },
                    )
                },
            }
        },
        ExternalFormV::Callback(c) => if !all_well_shaped(c.tys) {
            Err(conversion_error(c.id.name))
        } else {
            let tys = expand_types(stub.module, c.tys);
            match all_resolve(env, stub.module, tys, 0) {
                Err(e) => Err(e),
                Ok(false) => Ok(stub),
                Ok(true) => Ok(
                    ModuleStubV { callbacks: stub.callbacks.push(SignaturesV { id: c.id, tys }), ..stub },
                ),
            }
        },
        ExternalFormV::OptionalCallbacks(ids) => Ok(
            ModuleStubV {
                optional_callbacks: add_new_ids(stub.optional_callbacks, ids, ids.len()),
                ..stub
            },
        ),
        ExternalFormV::RecDecl(r) => if !all_well_shaped(field_types(r.fields)) || find_record(
            stub.records,
            r.name,
        ).is_some() {
            Err(conversion_error(r.name))
        } else {
            let tys = expand_types(stub.module, field_types(r.fields));
            match all_resolve(env, stub.module, tys, 0) {
                Err(e) => Err(e),
                Ok(false) => Ok(stub),
                Ok(true) => Ok(
                    ModuleStubV {
                        records: stub.records.push(
                            RecDeclV { name: r.name, fields: with_field_types(r.fields, tys) },
                        ),
                        ..stub
                    },
                ),
            }
        },
        _ => Ok(stub),
    }
}

/// The stub that the first `n` forms make, form by form; the first error ends it.
pub open spec fn expand_forms(env: Converted, module: Seq<char>, forms: Seq<ExternalFormV>, n: nat) -> Result<
    ModuleStubV,
    ErrorV,
>
    decreases n,
{
    if n == 0 || n > forms.len() {
        Ok(ModuleStubV::empty(module))
    } else {
        match expand_forms(env, module, forms, (n - 1) as nat) {
            Err(e) => Err(e),
            Ok(stub) => expand_form(env, stub, forms[n - 1]),
        }
    }
}

/// Stage 2: the stub that a module's forms make.
pub open spec fn spec_expand(env: Converted, module: Seq<char>) -> Result<ModuleStubV, ErrorV> {
    match env(module) {
        Err(e) => Err(e),
        Ok(forms) => expand_forms(env, module, forms, forms.len()),
    }
}

/// The expanded stubs of a project.
pub open spec fn project_expanded(env: Converted) -> Expanded {
    |module: Seq<char>| spec_expand(env, module)
}

// ------------------------------------------------------------------ stage 3

/// Whether unfolding `t` reaches a constructor before it comes back to a
/// type in `visited`. A constructor is anything but a union and a reference.
/// A reference to a type in `visited` is not productive; a reference to a
/// declared type is productive if the declaration's body is, with the type
/// added to `visited`, and if its arguments are, since a parameter may stand
/// bare in the body; a reference to a type that is not declared, or whose
/// module has no stub, is left to the next stage. Only a module that waits
/// for work ends the question, with its error. With the limit used up
/// nothing is productive.
pub open spec fn productive(
    stubs: Expanded,
    fuel: nat,
    visited: Seq<RemoteIdV>,
    t: TypeV,
) -> Result<bool, ErrorV>
    decreases fuel, t, 0nat,
{
    match referenced(t) {
        Some(rid) => if visited.contains(rid) {
            Ok(false)
        } else {
            match stubs(rid.module) {
                Err(e) => if is_pending(e) {
                    Err(e)
                } else {
                    all_productive(stubs, fuel, visited, t.args, 0)
                },
                Ok(stub) => {
                    let body = match find_type(stub.types, rid.id()) {
                        None => Ok(true),
                        Some(d) => if fuel == 0 {
                            Ok(false)
                        } else {
                            productive(stubs, (fuel - 1) as nat, visited.push(rid), d.body)
                        },
                    };
                    match body {
                        Ok(true) => all_productive(stubs, fuel, visited, t.args, 0),
                        other => other,
                    }
                },
            }
        },
        None => match t.head {
            HeadV::Union => all_productive(stubs, fuel, visited, t.args, 0),
            _ => Ok(true),
        },
    }
}

/// `productive` for the types of a list from position `i` on: the first
/// type that is not productive, or that fails, decides.
pub open spec fn all_productive(
    stubs: Expanded,
    fuel: nat,
    visited: Seq<RemoteIdV>,
    ts: Seq<TypeV>,
    i: nat,
) -> Result<bool, ErrorV>
    decreases fuel, ts, ts.len() - i,
{
    if i >= ts.len() {
        Ok(true)
    } else {
        match productive(stubs, fuel, visited, ts[i as int]) {
            Ok(true) => all_productive(stubs, fuel, visited, ts, i + 1),
            other => other,
        }
    }
}

/// The type that a declaration of a module declares.
pub open spec fn declared(module: Seq<char>, id: IdV) -> RemoteIdV {
    RemoteIdV { module, name: id.name, arity: id.arity }
}

/// Whether a declaration of `module` is productive.
pub open spec fn decl_productive(stubs: Expanded, module: Seq<char>, d: TypeDeclV) -> Result<
    bool,
    ErrorV,
> {
    productive(stubs, EXPANSION_LIMIT as nat, seq![declared(module, d.id)], d.body)
}

/// The verdicts for the first `n` type declarations of a stub.
pub open spec fn verdicts(stubs: Expanded, stub: ModuleStubV, n: nat) -> Result<Seq<bool>, ErrorV>
    decreases n,
{
    if n == 0 || n > stub.types.len() {
        Ok(Seq::empty())
    } else {
        match verdicts(stubs, stub, (n - 1) as nat) {
            Err(e) => Err(e),
            Ok(before) => match decl_productive(stubs, stub.module, stub.types[n - 1]) {
                Err(e) => Err(e),
                Ok(v) => Ok(before.push(v)),
            },
        }
    }
}

/// Stage 3: a module's stub with a verdict for each type declaration.
pub open spec fn spec_contractive(env: Converted, module: Seq<char>) -> Result<VStubV, ErrorV> {
    match spec_expand(env, module) {
        Err(e) => Err(e),
        Ok(stub) => match verdicts(project_expanded(env), stub, stub.types.len()) {
            Err(e) => Err(e),
            Ok(productive) => Ok(VStubV { stub, productive }),
        },
    }
}

/// The contractive stubs of a project.
pub open spec fn project_contractive(env: Converted) -> Contractive {
    |module: Seq<char>| spec_contractive(env, module)
}

// ------------------------------------------------------------------ stage 4

/// Position of a type declaration in a stub.
pub open spec fn type_index(types: Seq<TypeDeclV>, id: IdV) -> Option<int> {
    first_where(types, |d: TypeDeclV| d.id == id)
}

/// Whether every type that `t` names, and every type that those name, and
/// so on, is declared and productive. A type in `visited` is being looked
/// into and counts as valid. A type of a module that has no stub is not
/// valid; only a module that waits for work ends the question, with its
/// error. With the limit used up nothing is valid.
pub open spec fn valid(stubs: Contractive, fuel: nat, visited: Seq<RemoteIdV>, t: TypeV) -> Result<
    bool,
    ErrorV,
>
    decreases fuel, t, 0nat,
{
    let here = match referenced(t) {
        None => Ok(true),
        Some(rid) => if visited.contains(rid) {
            Ok(true)
        } else {
            match stubs(rid.module) {
                Err(e) => if is_pending(e) {
                    Err(e)
                } else {
                    Ok(false)
                },
                Ok(v) => match type_index(v.stub.types, rid.id()) {
                    None => Ok(false),
                    Some(i) => if !(0 <= i < v.productive.len() && v.productive[i]) || fuel == 0 {
                        Ok(false)
                    } else {
                        valid(stubs, (fuel - 1) as nat, visited.push(rid), v.stub.types[i].body)
                    },
                },
            }
        },
    };
    match here {
        Ok(true) => all_valid(stubs, fuel, visited, t.args, 0),
        other => other,
    }
}

/// `valid` for the types of a list from position `i` on.
pub open spec fn all_valid(
    stubs: Contractive,
    fuel: nat,
    visited: Seq<RemoteIdV>,
    ts: Seq<TypeV>,
    i: nat,
) -> Result<bool, ErrorV>
    decreases fuel, ts, ts.len() - i,
{
    if i >= ts.len() {
        Ok(true)
    } else {
        match valid(stubs, fuel, visited, ts[i as int]) {
            Ok(true) => all_valid(stubs, fuel, visited, ts, i + 1),
            other => other,
        }
    }
}

/// Whether a list of types is valid, with nothing visited yet.
pub open spec fn types_valid(stubs: Contractive, ts: Seq<TypeV>) -> Result<bool, ErrorV> {
    all_valid(stubs, EXPANSION_LIMIT as nat, Seq::empty(), ts, 0)
}

/// The type declarations among the first `n` that are productive and valid.
pub open spec fn valid_types(stubs: Contractive, v: VStubV, n: nat) -> Result<Seq<TypeDeclV>, ErrorV>
    decreases n,
{
    if n == 0 || n > v.stub.types.len() {
        Ok(Seq::empty())
    } else {
        match valid_types(stubs, v, (n - 1) as nat) {
            Err(e) => Err(e),
            Ok(before) => {
                let d = v.stub.types[n - 1];
                if !(n - 1 < v.productive.len() && v.productive[n - 1]) {
                    Ok(before)
                } else {
                    match valid(
                        stubs,
                        EXPANSION_LIMIT as nat,
                        seq![declared(v.stub.module, d.id)],
                        d.body,
                    ) {
                        Err(e) => Err(e),
                        Ok(true) => Ok(before.push(d)),
                        Ok(false) => Ok(before),
                    }
                }
            },
        }
    }
}

/// The records among the first `n` whose field types are valid.
pub open spec fn valid_records(stubs: Contractive, records: Seq<RecDeclV>, n: nat) -> Result<
    Seq<RecDeclV>,
    ErrorV,
>
    decreases n,
{
    if n == 0 || n > records.len() {
        Ok(Seq::empty())
    } else {
        match valid_records(stubs, records, (n - 1) as nat) {
            Err(e) => Err(e),
            Ok(before) => match types_valid(stubs, field_types(records[n - 1].fields)) {
                Err(e) => Err(e),
                Ok(true) => Ok(before.push(records[n - 1])),
                Ok(false) => Ok(before),
            },
        }
    }
}

/// The function specs among the first `n` whose type is valid.
pub open spec fn valid_specs(stubs: Contractive, specs: Seq<FunSpecV>, n: nat) -> Result<
    Seq<FunSpecV>,
    ErrorV,
>
    decreases n,
{
    if n == 0 || n > specs.len() {
        Ok(Seq::empty())
    } else {
        match valid_specs(stubs, specs, (n - 1) as nat) {
            Err(e) => Err(e),
            Ok(before) => match valid(
                stubs,
                EXPANSION_LIMIT as nat,
                Seq::empty(),
                specs[n - 1].ty,
            ) {
                Err(e) => Err(e),
                Ok(true) => Ok(before.push(specs[n - 1])),
                Ok(false) => Ok(before),
            },
        }
    }
}

/// The entries among the first `n` whose types are all valid.
pub open spec fn valid_signatures(stubs: Contractive, specs: Seq<SignaturesV>, n: nat) -> Result<
    Seq<SignaturesV>,
    ErrorV,
>
    decreases n,
{
    if n == 0 || n > specs.len() {
        Ok(Seq::empty())
    } else {
        match valid_signatures(stubs, specs, (n - 1) as nat) {
            Err(e) => Err(e),
            Ok(before) => match types_valid(stubs, specs[n - 1].tys) {
                Err(e) => Err(e),
                Ok(true) => Ok(before.push(specs[n - 1])),
                Ok(false) => Ok(before),
            },
        }
    }
}

/// Whether a held declaration is the one of the given type.
pub open spec fn is_foreign(rid: RemoteIdV) -> spec_fn((Seq<char>, TypeDeclV)) -> bool {
    |f: (Seq<char>, TypeDeclV)| f.0 == rid.module && f.1.id == rid.id()
}

/// Whether the declaration of a type is among those held.
pub open spec fn holds_foreign(acc: Seq<(Seq<char>, TypeDeclV)>, rid: RemoteIdV) -> bool {
    first_where(acc, is_foreign(rid)).is_some()
}

/// The declarations held after `t` has been looked through: to `acc` is
/// added the declaration of each type of another module that `t` names and
/// that is not held yet, and then what that declaration's body names, and so
/// on. A type that cannot be had is passed over.
pub open spec fn gather(
    stubs: Contractive,
    own: Seq<char>,
    fuel: nat,
    acc: Seq<(Seq<char>, TypeDeclV)>,
    t: TypeV,
) -> Seq<(Seq<char>, TypeDeclV)>
    decreases fuel, t, 0nat,
{
    let here = match referenced(t) {
        None => acc,
        Some(rid) => if rid.module == own || holds_foreign(acc, rid) {
            acc
        } else {
            match stubs(rid.module) {
                Err(_) => acc,
                Ok(v) => match find_type(v.stub.types, rid.id()) {
                    None => acc,
                    Some(d) => if fuel == 0 {
                        acc
                    } else {
                        gather(stubs, own, (fuel - 1) as nat, acc.push((rid.module, d)), d.body)
                    },
                },
            }
        },
    };
    gather_all(stubs, own, fuel, here, t.args, 0)
}

/// `gather` for the types of a list from position `i` on, one after the other.
pub open spec fn gather_all(
    stubs: Contractive,
    own: Seq<char>,
    fuel: nat,
    acc: Seq<(Seq<char>, TypeDeclV)>,
    ts: Seq<TypeV>,
    i: nat,
) -> Seq<(Seq<char>, TypeDeclV)>
    decreases fuel, ts, ts.len() - i,
{
    if i >= ts.len() {
        acc
    } else {
        gather_all(stubs, own, fuel, gather(stubs, own, fuel, acc, ts[i as int]), ts, i + 1)
    }
}

/// The bodies of the first `n` type declarations.
pub open spec fn bodies(types: Seq<TypeDeclV>, n: nat) -> Seq<TypeV>
    decreases n,
{
    if n == 0 || n > types.len() {
        Seq::empty()
    } else {
        bodies(types, (n - 1) as nat).push(types[n - 1].body)
    }
}

/// The field types of the first `n` records.
pub open spec fn record_types(records: Seq<RecDeclV>, n: nat) -> Seq<TypeV>
    decreases n,
{
    if n == 0 || n > records.len() {
        Seq::empty()
    } else {
        record_types(records, (n - 1) as nat) + field_types(records[n - 1].fields)
    }
}

/// The types of the first `n` function specs.
pub open spec fn spec_types(specs: Seq<FunSpecV>, n: nat) -> Seq<TypeV>
    decreases n,
{
    if n == 0 || n > specs.len() {
        Seq::empty()
    } else {
        spec_types(specs, (n - 1) as nat).push(specs[n - 1].ty)
    }
}

/// The types of the first `n` entries.
pub open spec fn signature_types(specs: Seq<SignaturesV>, n: nat) -> Seq<TypeV>
    decreases n,
{
    if n == 0 || n > specs.len() {
        Seq::empty()
    } else {
        signature_types(specs, (n - 1) as nat) + specs[n - 1].tys
    }
}

/// All the type expressions of a stub's own declarations: of its types,
/// its records, its plain and overloaded specs and its callbacks, in this order.
pub open spec fn stub_types(stub: ModuleStubV) -> Seq<TypeV> {
    bodies(stub.types, stub.types.len()) + record_types(stub.records, stub.records.len())
        + spec_types(stub.specs, stub.specs.len()) + signature_types(
        stub.overloaded_specs,
        stub.overloaded_specs.len(),
    ) + signature_types(stub.callbacks, stub.callbacks.len())
}

/// The stub that is left of a contractive stub when each declaration that
/// names, however indirectly, a type that is missing or not productive is
/// taken out; with it, the declarations of other modules that those left
/// stand on, however indirectly.
pub open spec fn transitive_of(stubs: Contractive, v: VStubV) -> Result<ModuleStubV, ErrorV> {
    match valid_types(stubs, v, v.stub.types.len()) {
        Err(e) => Err(e),
        Ok(types) => match valid_records(stubs, v.stub.records, v.stub.records.len()) {
            Err(e) => Err(e),
            Ok(records) => match valid_specs(stubs, v.stub.specs, v.stub.specs.len()) {
                Err(e) => Err(e),
                Ok(specs) => match valid_signatures(
                    stubs,
                    v.stub.overloaded_specs,
                    v.stub.overloaded_specs.len(),
                ) {
                    Err(e) => Err(e),
                    Ok(overloaded_specs) => match valid_signatures(
                        stubs,
                        v.stub.callbacks,
                        v.stub.callbacks.len(),
                    ) {
                        Err(e) => Err(e),
                        Ok(callbacks) => {
                            let own = ModuleStubV {
                                module: v.stub.module,
                                types,
                                records,
                                specs,
                                overloaded_specs,
                                callbacks,
                                optional_callbacks: v.stub.optional_callbacks,
                                foreign: Seq::empty(),
                            };
                            Ok(
                                ModuleStubV {
                                    foreign: gather_all(
                                        stubs,
                                        own.module,
                                        EXPANSION_LIMIT as nat,
                                        Seq::empty(),
                                        stub_types(own),
                                        0,
                                    ),
                                    ..own
                                },
                            )
                        },
                    },
                },
            },
        },
    }
}

/// Stage 4: the stub of a module whose every declaration stands on
/// declarations that exist and are productive.
pub open spec fn spec_transitive(env: Converted, module: Seq<char>) -> Result<ModuleStubV, ErrorV> {
    match spec_contractive(env, module) {
        Err(e) => Err(e),
        Ok(v) => transitive_of(project_contractive(env), v),
    }
}

/// An error among the first forms is the error of all the forms.
pub proof fn lemma_expand_error_stays(
    env: Converted,
    module: Seq<char>,
    forms: Seq<ExternalFormV>,
    i: nat,
    n: nat,
)
    requires
        expand_forms(env, module, forms, i) is Err,
        i <= n <= forms.len(),
    ensures
        expand_forms(env, module, forms, n) == expand_forms(env, module, forms, i),
    decreases n,
{
    if i < n {
        lemma_expand_error_stays(env, module, forms, i, (n - 1) as nat);
    }
}

/// An error among the first verdicts is the error of all of them.
pub proof fn lemma_verdicts_error_stays(stubs: Expanded, stub: ModuleStubV, i: nat, n: nat)
    requires
        verdicts(stubs, stub, i) is Err,
        i <= n <= stub.types.len(),
    ensures
        verdicts(stubs, stub, n) == verdicts(stubs, stub, i),
    decreases n,
{
    if i < n {
        lemma_verdicts_error_stays(stubs, stub, i, (n - 1) as nat);
    }
}

pub proof fn lemma_valid_types_error_stays(stubs: Contractive, v: VStubV, i: nat, n: nat)
    requires
        valid_types(stubs, v, i) is Err,
        i <= n <= v.stub.types.len(),
    ensures
        valid_types(stubs, v, n) == valid_types(stubs, v, i),
    decreases n,
{
    if i < n {
        lemma_valid_types_error_stays(stubs, v, i, (n - 1) as nat);
    }
}

pub proof fn lemma_valid_records_error_stays(
    stubs: Contractive,
    records: Seq<RecDeclV>,
    i: nat,
    n: nat,
)
    requires
        valid_records(stubs, records, i) is Err,
        i <= n <= records.len(),
    ensures
        valid_records(stubs, records, n) == valid_records(stubs, records, i),
    decreases n,
{
    if i < n {
        lemma_valid_records_error_stays(stubs, records, i, (n - 1) as nat);
    }
}

pub proof fn lemma_valid_specs_error_stays(stubs: Contractive, specs: Seq<FunSpecV>, i: nat, n: nat)
    requires
        valid_specs(stubs, specs, i) is Err,
        i <= n <= specs.len(),
    ensures
        valid_specs(stubs, specs, n) == valid_specs(stubs, specs, i),
    decreases n,
{
    if i < n {
        lemma_valid_specs_error_stays(stubs, specs, i, (n - 1) as nat);
    }
}

pub proof fn lemma_valid_signatures_error_stays(
    stubs: Contractive,
    specs: Seq<SignaturesV>,
    i: nat,
    n: nat,
)
    requires
        valid_signatures(stubs, specs, i) is Err,
        i <= n <= specs.len(),
    ensures
        valid_signatures(stubs, specs, n) == valid_signatures(stubs, specs, i),
    decreases n,
{
    if i < n {
        lemma_valid_signatures_error_stays(stubs, specs, i, (n - 1) as nat);
    }
}

} // verus!
