//! The questions that the store answers about modules: the four stages of
//! the pipeline, and what is read off their results.

use crate::codec::Node;
use crate::codec::NodeV;
use crate::codec::nodes_view;
use crate::error::Error;
use crate::error::ErrorV;
use crate::expand::expand_one;
use crate::form::is_non_stub_form;
use crate::form::spec_is_non_stub_form;
use crate::form::forms_view;
use crate::form::ExternalForm;
use crate::form::ExternalFormV;
use crate::form::AST;
use crate::ids::FileId;
use crate::ids::ProjectId;
use crate::input::AppType;
use crate::nodes::as_list;
use crate::nodes::node_to_list_spec;
use crate::nodes::Nodal;
use crate::pipeline::forms_without;
use crate::pipeline::spec_ast_from_bytes;
use crate::pipeline::spec_converted_stub;
use crate::pipeline::spec_erl_ast_bytes;
use crate::pipeline::spec_from_beam_path;
use crate::pipeline::expand_forms;
use crate::pipeline::project_converted;
use crate::codec::encode;
use crate::form::Callback;
use crate::form::FunSpec;
use crate::form::FunSpecV;
use crate::form::OverloadedFunSpec;
use crate::form::RecDecl;
use crate::form::RecDeclV;
use crate::form::SignaturesV;
use crate::form::TypeDecl;
use crate::form::TypeDeclV;
use crate::ids::clone_ids;
use crate::ids::ids_view;
use crate::ids::Id;
use crate::ids::IdV;
use crate::nodes::list_of;
use crate::nodes::list_to_node_spec;
use crate::nodes::spec_to_bytes;
use crate::nodes::to_bytes;
use crate::overrides::all_overloaded_qualified;
use crate::overrides::all_specs_qualified;
use crate::overrides::all_types_qualified;
use crate::overrides::find_override;
use crate::overrides::overloaded_overrides;
use crate::overrides::override_position;
use crate::overrides::overrides_view;
use crate::overrides::signatures_qualified;
use crate::overrides::spec_overrides;
use crate::overrides::specs_qualified;
use crate::overrides::split_overloaded_overrides;
use crate::overrides::split_spec_overrides;
use crate::overrides::split_type_overrides;
use crate::overrides::type_overrides;
use crate::overrides::types_qualified;
use crate::overrides::Override;
use crate::overrides::OverrideV;
use crate::pipeline::declares;
use crate::pipeline::exports_type;
use crate::pipeline::non_stub_forms;
use crate::stub::callbacks_view;
use crate::stub::find_record;
use crate::stub::find_signatures;
use crate::stub::find_spec;
use crate::stub::find_type;
use crate::stub::overloaded_position;
use crate::stub::record_position;
use crate::stub::spec_position;
use crate::stub::type_position;
use crate::expand::type_exported;
use crate::store::result_view;
use crate::store::spec_contractive_stub;
use crate::store::spec_expanded_stub;
use crate::store::spec_transitive_stub;
use crate::store::kept_right;
use crate::store::kept_stage;
use crate::store::clone_result;
use crate::store::Kept;
use crate::store::Stage;
use crate::store::Store;
use crate::stub::ModuleStub;
use crate::stub::ModuleStubV;
use crate::stub::VStub;
use std::sync::Arc;
use vstd::prelude::*;
use vstd::string::StringExecFns;

verus! {

/// Where a module's compiled artifact lies, if the module is read from one.
pub fn from_beam_path(db: &Store, file_id: FileId, module: &str) -> (path: Option<String>)
    ensures
        match path {
            Some(p) => spec_from_beam_path(db.inputs(), file_id, module@) == Some(p@),
            None => spec_from_beam_path(db.inputs(), file_id, module@).is_none(),
        },
{
    let app_data = match db.get_inputs().file_app_data(file_id) {
        Some(a) => a,
        None => {
            return None;
        },
    };
    match app_data.app_type {
        AppType::Otp => {},
        _ => {
            // Only modules of the platform are loaded from compiled artifacts
            return None;
        },
    }
    let ebin = match &app_data.ebin_path {
        Some(e) => e,
        None => {
            return None;
        },
    };
    let mut path = ebin.clone();
    path.append("/");
    path.append(module);
    path.append(".beam");
    Some(path)
}

/// The bytes that the parser made of a module's file.
pub fn erl_ast_bytes<'a>(db: &'a Store, project_id: ProjectId, module: &str) -> (bytes: Result<
    &'a Vec<u8>,
    Error,
>)
    ensures
        match bytes {
            Ok(b) => spec_erl_ast_bytes(db.inputs(), project_id, module@) == Ok::<Seq<u8>, ErrorV>(b@),
            Err(e) => spec_erl_ast_bytes(db.inputs(), project_id, module@) == Err::<Seq<u8>, ErrorV>(
                e@,
            ),
        },
{
    let inputs = db.get_inputs();
    match inputs.file_for_module(project_id, module) {
        None => Err(Error::ModuleNotFound(String::from_str(module))),
        Some(file_id) => match inputs.module_ast(file_id) {
            None => Err(Error::AstUnavailable(file_id)),
            Some(result) => {
                if result.is_ok() {
                    Ok(&result.ast)
                } else {
                    Err(Error::ParseError(result.errors[0].clone()))
                }
            },
        },
    }
}

/// Reads forms from bytes; with `filter_stub`, keeps those that bear
/// declarations.
pub fn ast_from_bytes(bytes: &[u8], filter_stub: bool) -> (ast: Result<AST, Error>)
    ensures
        match ast {
            Ok(a) => spec_ast_from_bytes(bytes@, filter_stub) == Ok::<Seq<ExternalFormV>, ErrorV>(a@),
            Err(e) => spec_ast_from_bytes(bytes@, filter_stub) == Err::<Seq<ExternalFormV>, ErrorV>(
                e@,
            ),
        },
{
    let node = match crate::codec::decode(bytes) {
        Some(n) => n,
        None => {
            return Err(Error::TypeConversionError(String::from_str("malformed syntax tree")));
        },
    };
    let cs = match as_list(&node) {
        Some(cs) => cs,
        None => {
            return Err(Error::TypeConversionError(String::from_str("malformed syntax tree")));
        },
    };
    let ghost all = Seq::new(
        cs@.len(),
        |j: int| ExternalForm::from_node_spec(nodes_view(cs@)[j]).unwrap(),
    );
    let ghost skip = |f: ExternalFormV| spec_is_non_stub_form(f);
    let mut forms: Vec<ExternalForm> = Vec::new();
    let mut i: usize = 0;
    while i < cs.len()
        invariant
            i <= cs.len(),
            node@ == NodeV::List(nodes_view(cs@)),
            crate::codec::decode_node(bytes@) == Some(node@),
            all == Seq::new(
                cs@.len(),
                |j: int| ExternalForm::from_node_spec(nodes_view(cs@)[j]).unwrap(),
            ),
            skip == (|f: ExternalFormV| spec_is_non_stub_form(f)),
            forall|j: int|
                0 <= j < i ==> (#[trigger] ExternalForm::from_node_spec(
                    nodes_view(cs@)[j],
                )).is_some(),
            filter_stub ==> forms_view(forms@) == forms_without(all, skip, i as nat),
            !filter_stub ==> forms_view(forms@) == all.take(i as int),
        decreases cs.len() - i,
    {
        match ExternalForm::from_node(&cs[i]) {
            None => {
                proof {
                    assert(ExternalForm::from_node_spec(nodes_view(cs@)[i as int]).is_none());
                }
                return Err(Error::TypeConversionError(String::from_str("malformed syntax tree")));
            },
            Some(form) => {
                proof {
                    assert(all[i as int] == form@);
                }
                if !(filter_stub && is_non_stub_form(&form)) {
                    forms.push(form);
                }
                proof {
                    if filter_stub {
                        assert(forms_view(forms@) =~= forms_without(all, skip, (i + 1) as nat));
                    } else {
                        assert(forms_view(forms@) =~= all.take(i + 1));
                    }
                }
            },
        }
        i = i + 1;
    }
    proof {
        assert(node_to_list_spec::<ExternalForm>(node@).unwrap() =~= all);
        assert(all.take(cs@.len() as int) =~= all);
    }
    Ok(AST { forms })
}

/// Stage 1 on the inputs as they stand, without the store's memory.
fn compute_converted_stub(db: &Store, project_id: ProjectId, module: &str) -> (ast: Result<
    Arc<AST>,
    Error,
>)
    ensures
        result_view(ast) == spec_converted_stub(db.inputs(), project_id, module@),
{
    let inputs = db.get_inputs();
    let file_id = match inputs.file_for_module(project_id, module) {
        Some(f) => f,
        None => {
            return Err(Error::ModuleNotFound(String::from_str(module)));
        },
    };
    let converted = match from_beam_path(db, file_id, module) {
        Some(path) => match inputs.beam(path.as_str()) {
            Some(contents) => ast_from_bytes(contents.as_slice(), true),
            None => Err(Error::BEAMNotFound(path)),
        },
        None => match erl_ast_bytes(db, project_id, module) {
            Err(e) => Err(e),
            Ok(bytes) => ast_from_bytes(bytes.as_slice(), true),
        },
    };
    match converted {
        Ok(ast) => Ok(Arc::new(ast)),
        Err(e) => Err(e),
    }
}

/// Stage 1: the declaration-bearing forms of a module. They are kept twice:
/// for the module's project, and with the module's file, so that they are
/// computed again only when that file has changed.
pub fn converted_stub(db: &mut Store, project_id: ProjectId, module: &str) -> (stub: Result<
    Arc<AST>,
    Error,
>)
    requires
        old(db).wf(),
    ensures
        final(db).wf(),
        final(db).extends(*old(db)),
        result_view(stub) == spec_converted_stub(old(db).inputs(), project_id, module@),
        final(db).cached(Stage::Converted, project_id, module@) || final(db).pinned(
            Stage::Converted,
            project_id,
            module@,
        ),
        old(db).cached(Stage::Converted, project_id, module@) || old(db).pinned(
            Stage::Converted,
            project_id,
            module@,
        ) ==> final(db).recomputations() == old(db).recomputations(),
        !old(db).cached(Stage::Converted, project_id, module@) && !old(db).pinned(
            Stage::Converted,
            project_id,
            module@,
        ) ==> forall|files: Seq<FileId>|
            crate::deps::apart(old(db).inputs(), project_id, seq![module@], files)
                ==> #[trigger] final(db).pinned_clear_of(Stage::Converted, project_id, module@, files),
{
    proof {
        db.lemma_extends_refl();
    }
    match db.cached_converted(project_id, module) {
        Some(stub) => {
            return stub;
        },
        None => {},
    }
    match db.pinned_converted(project_id, module) {
        Some(stub) => {
            return stub;
        },
        None => {},
    }
    let ghost start = *db;
    let stub = compute_converted_stub(db, project_id, module);
    let ghost mid = *db;
    proof {
        db.lemma_extends(start);
    }
    db.remember_converted(project_id, module, &stub);
    proof {
        db.lemma_extends_trans(mid, start);
    }
    let ghost kept = *db;
    keep_with_own_file(db, project_id, module, Kept::Converted(clone_result(&stub)));
    proof {
        db.lemma_extends_trans(kept, start);
    }
    stub
}

/// Keeps a converted stub with the file of its module.
fn keep_with_own_file(db: &mut Store, project_id: ProjectId, module: &str, value: Kept)
    requires
        old(db).wf(),
        value is Converted,
        kept_right(old(db).inputs(), project_id, module@, value),
    ensures
        final(db).wf(),
        final(db).extends(*old(db)),
        forall|files: Seq<FileId>|
            crate::deps::apart(old(db).inputs(), project_id, seq![module@], files)
                ==> #[trigger] final(db).pinned_clear_of(Stage::Converted, project_id, module@, files),
{
    let mut names: Vec<String> = Vec::new();
    names.push(String::from_str(module));
    proof {
        assert(crate::seqs::views(names@) =~= seq![module@]);
        assert(seq![module@][0] == module@);
    }
    let files = crate::deps::files_of(db, project_id, &names);
    let ghost deps = files@;
    let ghost start = *db;
    proof {
        crate::deps::lemma_converted_rests_on(db.inputs(), project_id, seq![module@], deps, module@);
    }
    db.pin(project_id, module, files, value);
    proof {
        assert forall|files: Seq<FileId>|
            crate::deps::apart(
                start.inputs(),
                project_id,
                seq![module@],
                files,
            ) implies #[trigger] db.pinned_clear_of(Stage::Converted, project_id, module@, files) by {
            crate::deps::lemma_own_is_clear(start.inputs(), project_id, module@, deps, files);
        }
    }
}

/// Stage 2 on the inputs as they stand, without the store's memory of it.
fn compute_expanded_stub(db: &mut Store, project_id: ProjectId, module: &str) -> (stub: Result<
    Arc<ModuleStub>,
    Error,
>)
    requires
        old(db).wf(),
    ensures
        final(db).wf(),
        final(db).extends(*old(db)),
        result_view(stub) == spec_expanded_stub(old(db).inputs(), project_id, module@),
{
    let ghost start = *db;
    let ghost env = project_converted(db.inputs(), project_id);
    let ast = match converted_stub(db, project_id, module) {
        Err(e) => {
            return Err(e);
        },
        Ok(ast) => ast,
    };
    let mut stub = ModuleStub::new(String::from_str(module));
    let mut i: usize = 0;
    while i < ast.forms.len()
        invariant
            i <= ast.forms.len(),
            db.wf(),
            db.extends(start),
            start == *old(db),
            env == project_converted(start.inputs(), project_id),
            env(module@) == Ok::<Seq<ExternalFormV>, ErrorV>(ast@),
            expand_forms(env, module@, ast@, i as nat) == Ok::<ModuleStubV, ErrorV>(stub@),
        decreases ast.forms.len() - i,
    {
        let ghost mid = *db;
        proof {
            db.lemma_extends(start);
            assert(ast@[i as int] == ast.forms@[i as int]@);
        }
        let one = expand_one(db, project_id, &mut stub, &ast.forms[i]);
        proof {
            db.lemma_extends_trans(mid, start);
        }
        match one {
            Err(e) => {
                proof {
                    crate::pipeline::lemma_expand_error_stays(
                        env,
                        module@,
                        ast@,
                        (i + 1) as nat,
                        ast@.len(),
                    );
                }
                return Err(e);
            },
            Ok(()) => {},
        }
        i = i + 1;
    }
    Ok(Arc::new(stub))
}

/// Stage 2: the stub that a module's forms make. It is kept twice: for its
/// project, and with the files of the module and of the modules that its
/// forms name.
pub fn expanded_stub(db: &mut Store, project_id: ProjectId, module: &str) -> (stub: Result<
    Arc<ModuleStub>,
    Error,
>)
    requires
        old(db).wf(),
    ensures
        final(db).wf(),
        final(db).extends(*old(db)),
        result_view(stub) == spec_expanded_stub(old(db).inputs(), project_id, module@),
        final(db).cached(Stage::Expanded, project_id, module@) || final(db).pinned(
            Stage::Expanded,
            project_id,
            module@,
        ),
        old(db).cached(Stage::Expanded, project_id, module@) || old(db).pinned(
            Stage::Expanded,
            project_id,
            module@,
        ) ==> final(db).recomputations() == old(db).recomputations(),
        !old(db).cached(Stage::Expanded, project_id, module@) && !old(db).pinned(
            Stage::Expanded,
            project_id,
            module@,
        ) ==> forall|files: Seq<FileId>|
            crate::deps::stands_apart_direct(old(db).inputs(), project_id, module@, files)
                ==> #[trigger] final(db).pinned_clear_of(Stage::Expanded, project_id, module@, files),
{
    proof {
        db.lemma_extends_refl();
    }
    match db.cached_expanded(project_id, module) {
        Some(stub) => {
            return stub;
        },
        None => {},
    }
    match db.pinned_expanded(project_id, module) {
        Some(stub) => {
            return stub;
        },
        None => {},
    }
    let ghost start = *db;
    let stub = compute_expanded_stub(db, project_id, module);
    let ghost mid = *db;
    proof {
        db.lemma_extends(start);
    }
    db.remember_expanded(project_id, module, &stub);
    proof {
        db.lemma_extends_trans(mid, start);
    }
    let ghost kept = *db;
    keep_with_named(db, project_id, module, Kept::Expanded(clone_result(&stub)));
    proof {
        db.lemma_extends_trans(kept, start);
    }
    stub
}

/// Keeps an expanded stub with the files of its module and of the modules
/// that its forms name, where these are few enough to be listed.
fn keep_with_named(db: &mut Store, project_id: ProjectId, module: &str, value: Kept)
    requires
        old(db).wf(),
        value is Expanded,
        kept_right(old(db).inputs(), project_id, module@, value),
    ensures
        final(db).wf(),
        final(db).extends(*old(db)),
        forall|files: Seq<FileId>|
            crate::deps::stands_apart_direct(old(db).inputs(), project_id, module@, files)
                ==> #[trigger] final(db).pinned_clear_of(Stage::Expanded, project_id, module@, files),
{
    let ghost start = *db;
    match crate::deps::direct_dependencies(db, project_id, module) {
        None => {},
        Some(names) => {
            let files = crate::deps::files_of(db, project_id, &names);
            let ghost mid = *db;
            let ghost deps = files@;
            proof {
                crate::deps::lemma_expanded_rests_on(
                    db.inputs(),
                    project_id,
                    crate::seqs::views(names@),
                    deps,
                    module@,
                );
            }
            db.pin(project_id, module, files, value);
            proof {
                db.lemma_extends_trans(mid, start);
                assert forall|files: Seq<FileId>|
                    crate::deps::stands_apart_direct(
                        start.inputs(),
                        project_id,
                        module@,
                        files,
                    ) implies #[trigger] db.pinned_clear_of(
                    Stage::Expanded,
                    project_id,
                    module@,
                    files,
                ) by {
                    crate::deps::lemma_least_direct_is_clear(
                        start.inputs(),
                        project_id,
                        module@,
                        crate::seqs::views(names@),
                        deps,
                        files,
                    );
                }
            }
        },
    }
}

/// Stage 3 on the inputs as they stand, without the store's memory of it.
fn compute_contractive_stub(db: &mut Store, project_id: ProjectId, module: &str) -> (stub: Result<
    Arc<VStub>,
    Error,
>)
    requires
        old(db).wf(),
    ensures
        final(db).wf(),
        final(db).extends(*old(db)),
        result_view(stub) == spec_contractive_stub(old(db).inputs(), project_id, module@),
{
    let ghost start = *db;
    let stub = match expanded_stub(db, project_id, module) {
        Err(e) => {
            return Err(e);
        },
        Ok(stub) => stub,
    };
    let ghost mid = *db;
    proof {
        db.lemma_extends(start);
    }
    let verdicts = crate::contractivity::check(db, project_id, &stub);
    proof {
        db.lemma_extends_trans(mid, start);
    }
    match verdicts {
        Err(e) => Err(e),
        Ok(productive) => Ok(Arc::new(VStub { stub, productive })),
    }
}

/// Stage 3: a module's stub with a verdict for each type declaration. It is
/// kept twice: for its project, and with the files of the modules that it
/// stands on.
pub fn contractive_stub(db: &mut Store, project_id: ProjectId, module: &str) -> (stub: Result<
    Arc<VStub>,
    Error,
>)
    requires
        old(db).wf(),
    ensures
        final(db).wf(),
        final(db).extends(*old(db)),
        result_view(stub) == spec_contractive_stub(old(db).inputs(), project_id, module@),
        final(db).cached(Stage::Contractive, project_id, module@) || final(db).pinned(
            Stage::Contractive,
            project_id,
            module@,
        ),
        old(db).cached(Stage::Contractive, project_id, module@) || old(db).pinned(
            Stage::Contractive,
            project_id,
            module@,
        ) ==> final(db).recomputations() == old(db).recomputations(),
        !old(db).cached(Stage::Contractive, project_id, module@) && !old(db).pinned(
            Stage::Contractive,
            project_id,
            module@,
        ) ==> forall|files: Seq<FileId>|
            crate::deps::stands_apart(old(db).inputs(), project_id, module@, files)
                ==> #[trigger] final(db).pinned_clear_of(Stage::Contractive, project_id, module@, files),
{
    proof {
        db.lemma_extends_refl();
    }
    match db.cached_contractive(project_id, module) {
        Some(stub) => {
            return stub;
        },
        None => {},
    }
    match db.pinned_contractive(project_id, module) {
        Some(stub) => {
            return stub;
        },
        None => {},
    }
    let ghost start = *db;
    let stub = compute_contractive_stub(db, project_id, module);
    let ghost mid = *db;
    proof {
        db.lemma_extends(start);
    }
    db.remember_contractive(project_id, module, &stub);
    proof {
        db.lemma_extends_trans(mid, start);
    }
    let ghost kept = *db;
    keep_with_dependencies(db, project_id, module, Kept::Contractive(clone_result(&stub)));
    proof {
        db.lemma_extends_trans(kept, start);
    }
    stub
}

/// Stage 4 on the inputs as they stand, without the store's memory of it.
fn compute_transitive_stub(db: &mut Store, project_id: ProjectId, module: &str) -> (stub: Result<
    Arc<ModuleStub>,
    Error,
>)
    requires
        old(db).wf(),
    ensures
        final(db).wf(),
        final(db).extends(*old(db)),
        result_view(stub) == spec_transitive_stub(old(db).inputs(), project_id, module@),
{
    let ghost start = *db;
    let v = match contractive_stub(db, project_id, module) {
        Err(e) => {
            return Err(e);
        },
        Ok(v) => v,
    };
    let ghost mid = *db;
    proof {
        db.lemma_extends(start);
    }
    let checked = crate::trans_valid::check(db, project_id, &v);
    proof {
        db.lemma_extends_trans(mid, start);
    }
    match checked {
        Err(e) => Err(e),
        Ok(stub) => Ok(Arc::new(stub)),
    }
}

/// Stage 4: the stub of a module whose every declaration stands on
/// declarations that exist and are productive. This is the stub that the
/// questions about a module are answered from. It is kept twice: for its
/// project, and with the files of the modules that it stands on, so that it
/// is computed again only when one of these has changed.
pub fn transitive_stub(db: &mut Store, project_id: ProjectId, module: &str) -> (stub: Result<
    Arc<ModuleStub>,
    Error,
>)
    requires
        old(db).wf(),
    ensures
        final(db).wf(),
        final(db).extends(*old(db)),
        result_view(stub) == spec_transitive_stub(old(db).inputs(), project_id, module@),
        final(db).cached(Stage::Transitive, project_id, module@) || final(db).pinned(
            Stage::Transitive,
            project_id,
            module@,
        ),
        old(db).cached(Stage::Transitive, project_id, module@) || old(db).pinned(
            Stage::Transitive,
            project_id,
            module@,
        ) ==> final(db).recomputations() == old(db).recomputations(),
        !old(db).cached(Stage::Transitive, project_id, module@) && !old(db).pinned(
            Stage::Transitive,
            project_id,
            module@,
        ) ==> forall|files: Seq<FileId>|
            crate::deps::stands_apart(old(db).inputs(), project_id, module@, files)
                ==> #[trigger] final(db).pinned_clear_of(Stage::Transitive, project_id, module@, files),
{
    proof {
        db.lemma_extends_refl();
    }
    match db.cached_transitive(project_id, module) {
        Some(stub) => {
            return stub;
        },
        None => {},
    }
    match db.pinned_transitive(project_id, module) {
        Some(stub) => {
            return stub;
        },
        None => {},
    }
    let ghost start = *db;
    let stub = compute_transitive_stub(db, project_id, module);
    let ghost mid = *db;
    proof {
        db.lemma_extends(start);
    }
    db.remember_transitive(project_id, module, &stub);
    proof {
        db.lemma_extends_trans(mid, start);
    }
    let ghost kept = *db;
    keep_with_dependencies(db, project_id, module, Kept::Transitive(clone_result(&stub)));
    proof {
        db.lemma_extends_trans(kept, start);
    }
    stub
}

/// Keeps a stub of the third or the fourth stage with the files of the
/// modules that it stands on, where these are few enough to be listed.
fn keep_with_dependencies(db: &mut Store, project_id: ProjectId, module: &str, value: Kept)
    requires
        old(db).wf(),
        value is Contractive || value is Transitive,
        kept_right(old(db).inputs(), project_id, module@, value),
    ensures
        final(db).wf(),
        final(db).extends(*old(db)),
        forall|files: Seq<FileId>|
            crate::deps::stands_apart(old(db).inputs(), project_id, module@, files)
                ==> #[trigger] final(db).pinned_clear_of(
                kept_stage(value),
                project_id,
                module@,
                files,
            ),
{
    let ghost start = *db;
    match crate::deps::dependencies(db, project_id, module) {
        None => {},
        Some(names) => {
            let files = crate::deps::files_of(db, project_id, &names);
            let ghost mid = *db;
            let ghost deps = files@;
            proof {
                crate::deps::lemma_stub_rests_on(
                    db.inputs(),
                    project_id,
                    crate::seqs::views(names@),
                    deps,
                    module@,
                );
            }
            db.pin(project_id, module, files, value);
            proof {
                db.lemma_extends_trans(mid, start);
                assert forall|files: Seq<FileId>|
                    crate::deps::stands_apart(
                        start.inputs(),
                        project_id,
                        module@,
                        files,
                    ) implies #[trigger] db.pinned_clear_of(
                    kept_stage(value),
                    project_id,
                    module@,
                    files,
                ) by {
                    crate::deps::lemma_least_is_clear(
                        start.inputs(),
                        project_id,
                        module@,
                        crate::seqs::views(names@),
                        deps,
                        files,
                    );
                }
            }
        },
    }
}

/// Whether a type can be named from other modules.
#[derive(Clone, Copy, Debug, PartialEq, Eq, Structural)]
pub enum Visibility {
    Public,
    Private,
}

/// How a type declared among the forms can be seen.
pub open spec fn visibility(forms: Seq<ExternalFormV>, id: IdV) -> Visibility {
    if exports_type(forms, id) {
        Visibility::Public
    } else {
        Visibility::Private
    }
}

/// The types that the first `n` forms declare, in order, each with how it
/// can be seen.
pub open spec fn declared_types(forms: Seq<ExternalFormV>, n: nat) -> Seq<(IdV, Visibility)>
    decreases n,
{
    if n == 0 || n > forms.len() {
        Seq::empty()
    } else {
        let before = declared_types(forms, (n - 1) as nat);
        match forms[n - 1] {
            ExternalFormV::TypeDecl(d) => before.push((d.id, visibility(forms, d.id))),
            _ => before,
        }
    }
}

/// The types that a module declares, as the forms of stage 1 say.
pub open spec fn spec_type_ids(forms: Result<Seq<ExternalFormV>, ErrorV>) -> Result<
    Seq<(IdV, Visibility)>,
    ErrorV,
> {
    match forms {
        Ok(forms) => Ok(declared_types(forms, forms.len())),
        Err(e) => Err(e),
    }
}

pub open spec fn type_ids_view(v: Seq<(Id, Visibility)>) -> Seq<(IdV, Visibility)> {
    Seq::new(v.len(), |i: int| (v[i].0@, v[i].1))
}

/// The types that a module declares, each with how it can be seen.
pub fn type_ids(db: &mut Store, project_id: ProjectId, module: &str) -> (ids: Result<
    Vec<(Id, Visibility)>,
    Error,
>)
    requires
        old(db).wf(),
    ensures
        final(db).wf(),
        final(db).extends(*old(db)),
        match ids {
            Ok(v) => spec_type_ids(spec_converted_stub(old(db).inputs(), project_id, module@)) == Ok::<
                Seq<(IdV, Visibility)>,
                ErrorV,
            >(type_ids_view(v@)),
            Err(e) => spec_type_ids(spec_converted_stub(old(db).inputs(), project_id, module@))
                == Err::<Seq<(IdV, Visibility)>, ErrorV>(e@),
        },
{
    let ast = match converted_stub(db, project_id, module) {
        Err(e) => {
            return Err(e);
        },
        Ok(ast) => ast,
    };
    let mut out: Vec<(Id, Visibility)> = Vec::new();
    let mut i: usize = 0;
    proof {
        assert(type_ids_view(out@) =~= Seq::<(IdV, Visibility)>::empty());
    }
    while i < ast.forms.len()
        invariant
            i <= ast.forms.len(),
            type_ids_view(out@) == declared_types(ast@, i as nat),
        decreases ast.forms.len() - i,
    {
        let ghost so_far = type_ids_view(out@);
        proof {
            assert(ast@[i as int] == ast.forms@[i as int]@);
        }
        match &ast.forms[i] {
            ExternalForm::TypeDecl(d) => {
                let vis = if type_exported(&ast.forms, &d.id) {
                    Visibility::Public
                } else {
                    Visibility::Private
                };
                out.push((d.id.clone(), vis));
                proof {
                    assert(type_ids_view(out@) =~= so_far.push((d@.id, vis)));
                }
            },
            _ => {},
        }
        i = i + 1;
    }
    Ok(out)
}

/// The bytes of the forms of `ast` that bear no declarations.
pub fn non_stub_bytes(ast: &AST) -> (bytes: Vec<u8>)
    ensures
        bytes@ == spec_to_bytes::<AST>(non_stub_forms(ast@)),
{
    let ghost skip = |f: ExternalFormV| !spec_is_non_stub_form(f);
    let mut nodes: Vec<Node> = Vec::new();
    let mut i: usize = 0;
    while i < ast.forms.len()
        invariant
            i <= ast.forms.len(),
            skip == (|f: ExternalFormV| !spec_is_non_stub_form(f)),
            nodes@.len() == forms_without(ast@, skip, i as nat).len(),
            forall|k: int|
                0 <= k < nodes@.len() ==> (#[trigger] nodes@[k])@ == ExternalForm::to_node_spec(
                    forms_without(ast@, skip, i as nat)[k],
                ),
        decreases ast.forms.len() - i,
    {
        proof {
            assert(ast@[i as int] == ast.forms@[i as int]@);
        }
        if is_non_stub_form(&ast.forms[i]) {
            nodes.push(ast.forms[i].to_node());
        }
        i = i + 1;
    }
    let n = list_of(nodes);
    proof {
        let xs = non_stub_forms(ast@);
        assert(xs == forms_without(ast@, skip, ast@.len()));
        let want = list_to_node_spec::<ExternalForm>(xs);
        assert(want == NodeV::List(Seq::new(xs.len(), |k: int| ExternalForm::to_node_spec(xs[k]))));
        assert(nodes_view(nodes@) =~= Seq::new(xs.len(), |k: int| ExternalForm::to_node_spec(xs[k])));
        assert(AST::to_node_spec(xs) == want);
    }
    encode(&n)
}

/// The bytes of a module's transitive stub.
pub fn transitive_stub_bytes(db: &mut Store, project_id: ProjectId, module: &str) -> (bytes: Result<
    Vec<u8>,
    Error,
>)
    requires
        old(db).wf(),
    ensures
        final(db).wf(),
        final(db).extends(*old(db)),
        match bytes {
            Ok(b) => match spec_transitive_stub(old(db).inputs(), project_id, module@) {
                Ok(stub) => b@ == spec_to_bytes::<ModuleStub>(stub),
                Err(_) => false,
            },
            Err(e) => spec_transitive_stub(old(db).inputs(), project_id, module@) == Err::<
                ModuleStubV,
                ErrorV,
            >(e@),
        },
{
    match transitive_stub(db, project_id, module) {
        Err(e) => Err(e),
        Ok(stub) => Ok(to_bytes::<ModuleStub>(&stub)),
    }
}

/// The module whose type declarations override those of other modules.
pub open spec fn reserved_types() -> Seq<char> {
    "eqwalizer_types"@
}

/// The module whose function specs override those of other modules.
pub open spec fn reserved_specs() -> Seq<char> {
    "eqwalizer_specs"@
}

/// What the stub of a reserved module yields: its overrides; none where the
/// reserved module itself is missing; every other error as it is.
pub open spec fn overrides_from<DV>(
    name: Seq<char>,
    reserved: Result<ModuleStubV, ErrorV>,
    split: spec_fn(ModuleStubV) -> Seq<OverrideV<DV>>,
) -> Result<Seq<OverrideV<DV>>, ErrorV> {
    match reserved {
        Ok(stub) => Ok(split(stub)),
        Err(e) => if e == ErrorV::ModuleNotFound(name) {
            Ok(Seq::empty())
        } else {
            Err(e)
        },
    }
}

/// Whether an error says that the named module is missing.
pub fn is_missing(e: &Error, name: &str) -> (missing: bool)
    ensures
        missing == (e@ == ErrorV::ModuleNotFound(name@)),
{
    match e {
        Error::ModuleNotFound(n) => crate::input::same_text(n.as_str(), name),
        _ => false,
    }
}

/// The type overrides of a project.
pub open spec fn spec_custom_types(inputs: crate::input::Inputs, project_id: ProjectId) -> Result<
    Seq<OverrideV<TypeDeclV>>,
    ErrorV,
> {
    overrides_from(
        reserved_types(),
        spec_transitive_stub(inputs, project_id, reserved_types()),
        |stub: ModuleStubV| type_overrides(stub.types),
    )
}

/// The plain spec overrides of a project.
pub open spec fn spec_custom_fun_specs(inputs: crate::input::Inputs, project_id: ProjectId) -> Result<
    Seq<OverrideV<FunSpecV>>,
    ErrorV,
> {
    overrides_from(
        reserved_specs(),
        spec_transitive_stub(inputs, project_id, reserved_specs()),
        |stub: ModuleStubV| spec_overrides(stub.specs),
    )
}

/// The overloaded spec overrides of a project.
pub open spec fn spec_custom_overloaded_fun_specs(
    inputs: crate::input::Inputs,
    project_id: ProjectId,
) -> Result<Seq<OverrideV<SignaturesV>>, ErrorV> {
    overrides_from(
        reserved_specs(),
        spec_transitive_stub(inputs, project_id, reserved_specs()),
        |stub: ModuleStubV| overloaded_overrides(stub.overloaded_specs),
    )
}

/// Every type of the reserved module has a name of the form `module:name`.
pub open spec fn custom_types_named(inputs: crate::input::Inputs, project_id: ProjectId) -> bool {
    match spec_transitive_stub(inputs, project_id, reserved_types()) {
        Ok(stub) => types_qualified(stub.types),
        Err(_) => true,
    }
}

/// Every plain spec of the reserved module has a name of the form `module:name`.
pub open spec fn custom_plain_named(inputs: crate::input::Inputs, project_id: ProjectId) -> bool {
    match spec_transitive_stub(inputs, project_id, reserved_specs()) {
        Ok(stub) => specs_qualified(stub.specs),
        Err(_) => true,
    }
}

/// Every overloaded spec of the reserved module has a name of the form
/// `module:name`.
pub open spec fn custom_overloaded_named(inputs: crate::input::Inputs, project_id: ProjectId) -> bool {
    match spec_transitive_stub(inputs, project_id, reserved_specs()) {
        Ok(stub) => signatures_qualified(stub.overloaded_specs),
        Err(_) => true,
    }
}

/// Every spec of the reserved module has a name of the form `module:name`.
pub open spec fn custom_specs_named(inputs: crate::input::Inputs, project_id: ProjectId) -> bool {
    custom_plain_named(inputs, project_id) && custom_overloaded_named(inputs, project_id)
}

/// Whether the plain spec of a function can be asked for: the overloaded
/// overrides, which are read first, are well named, and so are the plain
/// ones where they are read at all.
pub open spec fn fun_spec_askable(
    inputs: crate::input::Inputs,
    project_id: ProjectId,
    module: Seq<char>,
    id: IdV,
) -> bool {
    &&& custom_overloaded_named(inputs, project_id)
    &&& match spec_custom_overloaded_fun_specs(inputs, project_id) {
        Ok(overloaded) => find_override(overloaded, module, id).is_some() || custom_plain_named(
            inputs,
            project_id,
        ),
        Err(_) => true,
    }
}

/// Whether the overloaded spec of a function can be asked for: the plain
/// overrides, which are read first, are well named, and so are the
/// overloaded ones where they are read at all.
pub open spec fn overloaded_fun_spec_askable(
    inputs: crate::input::Inputs,
    project_id: ProjectId,
    module: Seq<char>,
    id: IdV,
) -> bool {
    &&& custom_plain_named(inputs, project_id)
    &&& match spec_custom_fun_specs(inputs, project_id) {
        Ok(plain) => find_override(plain, module, id).is_some() || custom_overloaded_named(
            inputs,
            project_id,
        ),
        Err(_) => true,
    }
}

/// Says whether the questions about types may be asked of a project:
/// whether the names in its reserved module are as they should be.
pub fn check_custom_types(db: &mut Store, project_id: ProjectId) -> (ok: bool)
    requires
        old(db).wf(),
    ensures
        final(db).wf(),
        final(db).extends(*old(db)),
        ok == custom_types_named(old(db).inputs(), project_id),
{
    proof {
        reveal_strlit("eqwalizer_types");
    }
    match transitive_stub(db, project_id, "eqwalizer_types") {
        Ok(stub) => all_types_qualified(&stub.types),
        Err(_) => true,
    }
}

/// Says whether the questions about function specs may be asked of a project.
pub fn check_custom_specs(db: &mut Store, project_id: ProjectId) -> (ok: bool)
    requires
        old(db).wf(),
    ensures
        final(db).wf(),
        final(db).extends(*old(db)),
        ok == custom_specs_named(old(db).inputs(), project_id),
{
    match transitive_stub(db, project_id, "eqwalizer_specs") {
        Ok(stub) => all_specs_qualified(&stub.specs) && all_overloaded_qualified(
            &stub.overloaded_specs,
        ),
        Err(_) => true,
    }
}

pub open spec fn type_overrides_result(r: Result<Vec<Override<TypeDecl>>, Error>) -> Result<
    Seq<OverrideV<TypeDeclV>>,
    ErrorV,
> {
    match r {
        Ok(v) => Ok(overrides_view(v@)),
        Err(e) => Err(e@),
    }
}

pub open spec fn spec_overrides_result(r: Result<Vec<Override<FunSpec>>, Error>) -> Result<
    Seq<OverrideV<FunSpecV>>,
    ErrorV,
> {
    match r {
        Ok(v) => Ok(overrides_view(v@)),
        Err(e) => Err(e@),
    }
}

pub open spec fn overloaded_overrides_result(
    r: Result<Vec<Override<OverloadedFunSpec>>, Error>,
) -> Result<Seq<OverrideV<SignaturesV>>, ErrorV> {
    match r {
        Ok(v) => Ok(overrides_view(v@)),
        Err(e) => Err(e@),
    }
}

/// The type overrides of a project: the type declarations of the reserved
/// module, each for the module and the type that its name says. A project
/// without the reserved module has none.
pub fn custom_types(db: &mut Store, project_id: ProjectId) -> (custom: Result<
    Vec<Override<TypeDecl>>,
    Error,
>)
    requires
        old(db).wf(),
        custom_types_named(old(db).inputs(), project_id),
    ensures
        final(db).wf(),
        final(db).extends(*old(db)),
        type_overrides_result(custom) == spec_custom_types(old(db).inputs(), project_id),
{
    match transitive_stub(db, project_id, "eqwalizer_types") {
        Ok(stub) => Ok(split_type_overrides(&stub.types)),
        Err(err) => {
            // if the reserved module itself is missing, there are no overrides
            if is_missing(&err, "eqwalizer_types") {
                let none: Vec<Override<TypeDecl>> = Vec::new();
                proof {
                    assert(overrides_view(none@) =~= Seq::<OverrideV<TypeDeclV>>::empty());
                }
                Ok(none)
            } else {
                Err(err)
            }
        },
    }
}

/// The plain spec overrides of a project.
pub fn custom_fun_specs(db: &mut Store, project_id: ProjectId) -> (custom: Result<
    Vec<Override<FunSpec>>,
    Error,
>)
    requires
        old(db).wf(),
        custom_plain_named(old(db).inputs(), project_id),
    ensures
        final(db).wf(),
        final(db).extends(*old(db)),
        spec_overrides_result(custom) == spec_custom_fun_specs(old(db).inputs(), project_id),
{
    match transitive_stub(db, project_id, "eqwalizer_specs") {
        Ok(stub) => Ok(split_spec_overrides(&stub.specs)),
        Err(err) => {
            // if the reserved module itself is missing, there are no overrides
            if is_missing(&err, "eqwalizer_specs") {
                let none: Vec<Override<FunSpec>> = Vec::new();
                proof {
                    assert(overrides_view(none@) =~= Seq::<OverrideV<FunSpecV>>::empty());
                }
                Ok(none)
            } else {
                Err(err)
            }
        },
    }
}

/// The overloaded spec overrides of a project.
pub fn custom_overloaded_fun_specs(db: &mut Store, project_id: ProjectId) -> (custom: Result<
    Vec<Override<OverloadedFunSpec>>,
    Error,
>)
    requires
        old(db).wf(),
        custom_overloaded_named(old(db).inputs(), project_id),
    ensures
        final(db).wf(),
        final(db).extends(*old(db)),
        overloaded_overrides_result(custom) == spec_custom_overloaded_fun_specs(
            old(db).inputs(),
            project_id,
        ),
{
    match transitive_stub(db, project_id, "eqwalizer_specs") {
        Ok(stub) => Ok(split_overloaded_overrides(&stub.overloaded_specs)),
        Err(err) => {
            // if the reserved module itself is missing, there are no overrides
            if is_missing(&err, "eqwalizer_specs") {
                let none: Vec<Override<OverloadedFunSpec>> = Vec::new();
                proof {
                    assert(overrides_view(none@) =~= Seq::<OverrideV<SignaturesV>>::empty());
                }
                Ok(none)
            } else {
                Err(err)
            }
        },
    }
}

/// The type declaration that holds of `id` in `module`: the override where
/// there is one, else what the module's transitive stub holds.
pub open spec fn spec_type_decl(
    inputs: crate::input::Inputs,
    project_id: ProjectId,
    module: Seq<char>,
    id: IdV,
) -> Result<Option<TypeDeclV>, ErrorV> {
    match spec_custom_types(inputs, project_id) {
        Err(e) => Err(e),
        Ok(custom) => match find_override(custom, module, id) {
            Some(d) => Ok(Some(d)),
            None => match spec_transitive_stub(inputs, project_id, module) {
                Err(e) => Err(e),
                Ok(stub) => Ok(find_type(stub.types, id)),
            },
        },
    }
}

/// The record declaration of the given name in `module`.
pub open spec fn spec_rec_decl(
    inputs: crate::input::Inputs,
    project_id: ProjectId,
    module: Seq<char>,
    name: Seq<char>,
) -> Result<Option<RecDeclV>, ErrorV> {
    match spec_transitive_stub(inputs, project_id, module) {
        Err(e) => Err(e),
        Ok(stub) => Ok(find_record(stub.records, name)),
    }
}

/// The plain spec that holds of `id` in `module`: none where an overloaded
/// override exists; else the plain override; else what the module's
/// transitive stub holds.
pub open spec fn spec_fun_spec(
    inputs: crate::input::Inputs,
    project_id: ProjectId,
    module: Seq<char>,
    id: IdV,
) -> Result<Option<FunSpecV>, ErrorV> {
    match spec_custom_overloaded_fun_specs(inputs, project_id) {
        Err(e) => Err(e),
        Ok(overloaded) => if find_override(overloaded, module, id).is_some() {
            Ok(None)
        } else {
            match spec_custom_fun_specs(inputs, project_id) {
                Err(e) => Err(e),
                Ok(custom) => match find_override(custom, module, id) {
                    Some(d) => Ok(Some(d)),
                    None => match spec_transitive_stub(inputs, project_id, module) {
                        Err(e) => Err(e),
                        Ok(stub) => Ok(find_spec(stub.specs, id)),
                    },
                },
            }
        },
    }
}

/// The overloaded spec that holds of `id` in `module`: none where a plain
/// override exists; else the overloaded override; else what the module's
/// transitive stub holds.
pub open spec fn spec_overloaded_fun_spec(
    inputs: crate::input::Inputs,
    project_id: ProjectId,
    module: Seq<char>,
    id: IdV,
) -> Result<Option<SignaturesV>, ErrorV> {
    match spec_custom_fun_specs(inputs, project_id) {
        Err(e) => Err(e),
        Ok(custom) => if find_override(custom, module, id).is_some() {
            Ok(None)
        } else {
            match spec_custom_overloaded_fun_specs(inputs, project_id) {
                Err(e) => Err(e),
                Ok(overloaded) => match find_override(overloaded, module, id) {
                    Some(d) => Ok(Some(d)),
                    None => match spec_transitive_stub(inputs, project_id, module) {
                        Err(e) => Err(e),
                        Ok(stub) => Ok(find_signatures(stub.overloaded_specs, id)),
                    },
                },
            }
        },
    }
}

/// An answer that may be a declaration, as pure data.
pub open spec fn answer_view<D: View>(r: Result<Option<D>, Error>) -> Result<Option<D::V>, ErrorV> {
    match r {
        Ok(Some(d)) => Ok(Some(d@)),
        Ok(None) => Ok(None),
        Err(e) => Err(e@),
    }
}

/// The type declaration that holds of `id` in `module`.
pub fn type_decl(db: &mut Store, project_id: ProjectId, module: &str, id: &Id) -> (decl: Result<
    Option<TypeDecl>,
    Error,
>)
    requires
        old(db).wf(),
        custom_types_named(old(db).inputs(), project_id),
    ensures
        final(db).wf(),
        final(db).extends(*old(db)),
        answer_view(decl) == spec_type_decl(old(db).inputs(), project_id, module@, id@),
{
    let ghost start = *db;
    let custom = match custom_types(db, project_id) {
        Err(e) => {
            return Err(e);
        },
        Ok(custom) => custom,
    };
    let module_name = String::from_str(module);
    // return the override if it exists
    match override_position(&custom, &module_name, id) {
        Some(i) => {
            return Ok(Some(custom[i].decl.clone()));
        },
        None => {},
    }
    let ghost mid = *db;
    proof {
        db.lemma_extends(start);
    }
    let stub = transitive_stub(db, project_id, module);
    proof {
        db.lemma_extends_trans(mid, start);
    }
    match stub {
        Err(e) => Err(e),
        Ok(stub) => match type_position(&stub.types, id) {
            Some(i) => Ok(Some(stub.types[i].clone())),
            None => Ok(None),
        },
    }
}

/// The record declaration of the given name in `module`.
pub fn rec_decl(db: &mut Store, project_id: ProjectId, module: &str, name: &String) -> (decl: Result<
    Option<RecDecl>,
    Error,
>)
    requires
        old(db).wf(),
    ensures
        final(db).wf(),
        final(db).extends(*old(db)),
        answer_view(decl) == spec_rec_decl(old(db).inputs(), project_id, module@, name@),
{
    match transitive_stub(db, project_id, module) {
        Err(e) => Err(e),
        Ok(stub) => match record_position(&stub.records, name) {
            Some(i) => Ok(Some(stub.records[i].clone())),
            None => Ok(None),
        },
    }
}

/// The plain spec that holds of `id` in `module`.
pub fn fun_spec(db: &mut Store, project_id: ProjectId, module: &str, id: &Id) -> (spec: Result<
    Option<FunSpec>,
    Error,
>)
    requires
        old(db).wf(),
        fun_spec_askable(old(db).inputs(), project_id, module@, id@),
    ensures
        final(db).wf(),
        final(db).extends(*old(db)),
        answer_view(spec) == spec_fun_spec(old(db).inputs(), project_id, module@, id@),
{
    let ghost start = *db;
    let module_name = String::from_str(module);
    let custom_overloaded = match custom_overloaded_fun_specs(db, project_id) {
        Err(e) => {
            return Err(e);
        },
        Ok(custom) => custom,
    };
    if override_position(&custom_overloaded, &module_name, id).is_some() {
        return Ok(None);
    }
    let ghost mid = *db;
    proof {
        db.lemma_extends(start);
    }
    let custom = custom_fun_specs(db, project_id);
    proof {
        db.lemma_extends_trans(mid, start);
    }
    let custom = match custom {
        Err(e) => {
            return Err(e);
        },
        Ok(custom) => custom,
    };
    match override_position(&custom, &module_name, id) {
        Some(i) => {
            return Ok(Some(custom[i].decl.clone()));
        },
        None => {},
    }
    let ghost mid2 = *db;
    proof {
        db.lemma_extends(start);
    }
    let stub = transitive_stub(db, project_id, module);
    proof {
        db.lemma_extends_trans(mid2, start);
    }
    match stub {
        Err(e) => Err(e),
        Ok(stub) => match spec_position(&stub.specs, id) {
            Some(i) => Ok(Some(stub.specs[i].clone())),
            None => Ok(None),
        },
    }
}

/// The overloaded spec that holds of `id` in `module`.
pub fn overloaded_fun_spec(db: &mut Store, project_id: ProjectId, module: &str, id: &Id) -> (spec:
    Result<Option<OverloadedFunSpec>, Error>)
    requires
        old(db).wf(),
        overloaded_fun_spec_askable(old(db).inputs(), project_id, module@, id@),
    ensures
        final(db).wf(),
        final(db).extends(*old(db)),
        answer_view(spec) == spec_overloaded_fun_spec(old(db).inputs(), project_id, module@, id@),
{
    let ghost start = *db;
    let module_name = String::from_str(module);
    let custom = match custom_fun_specs(db, project_id) {
        Err(e) => {
            return Err(e);
        },
        Ok(custom) => custom,
    };
    if override_position(&custom, &module_name, id).is_some() {
        return Ok(None);
    }
    let ghost mid = *db;
    proof {
        db.lemma_extends(start);
    }
    let custom_overloaded = custom_overloaded_fun_specs(db, project_id);
    proof {
        db.lemma_extends_trans(mid, start);
    }
    let custom_overloaded = match custom_overloaded {
        Err(e) => {
            return Err(e);
        },
        Ok(custom) => custom,
    };
    match override_position(&custom_overloaded, &module_name, id) {
        Some(i) => {
            return Ok(Some(custom_overloaded[i].decl.clone()));
        },
        None => {},
    }
    let ghost mid2 = *db;
    proof {
        db.lemma_extends(start);
    }
    let stub = transitive_stub(db, project_id, module);
    proof {
        db.lemma_extends_trans(mid2, start);
    }
    match stub {
        Err(e) => Err(e),
        Ok(stub) => match overloaded_position(&stub.overloaded_specs, id) {
            Some(i) => Ok(Some(stub.overloaded_specs[i].clone())),
            None => Ok(None),
        },
    }
}

/// The bytes of an answer that may be a declaration.
pub open spec fn answer_bytes<D: Nodal>(r: Result<Option<D::V>, ErrorV>) -> Result<
    Option<Seq<u8>>,
    ErrorV,
> {
    match r {
        Ok(Some(d)) => Ok(Some(spec_to_bytes::<D>(d))),
        Ok(None) => Ok(None),
        Err(e) => Err(e),
    }
}

pub open spec fn bytes_view(r: Result<Option<Vec<u8>>, Error>) -> Result<Option<Seq<u8>>, ErrorV> {
    match r {
        Ok(Some(b)) => Ok(Some(b@)),
        Ok(None) => Ok(None),
        Err(e) => Err(e@),
    }
}

/// Writes an answer that may be a declaration.
pub fn answer_to_bytes<D: Nodal>(r: Result<Option<D>, Error>) -> (bytes: Result<
    Option<Vec<u8>>,
    Error,
>)
    ensures
        bytes_view(bytes) == answer_bytes::<D>(answer_view(r)),
{
    match r {
        Ok(Some(d)) => Ok(Some(to_bytes::<D>(&d))),
        Ok(None) => Ok(None),
        Err(e) => Err(e),
    }
}

/// The bytes of the type declaration that holds of `id` in `module`.
pub fn type_decl_bytes(db: &mut Store, project_id: ProjectId, module: &str, id: &Id) -> (bytes:
    Result<Option<Vec<u8>>, Error>)
    requires
        old(db).wf(),
        custom_types_named(old(db).inputs(), project_id),
    ensures
        final(db).wf(),
        final(db).extends(*old(db)),
        bytes_view(bytes) == answer_bytes::<TypeDecl>(
            spec_type_decl(old(db).inputs(), project_id, module@, id@),
        ),
{
    answer_to_bytes(type_decl(db, project_id, module, id))
}

/// The bytes of the record declaration of the given name in `module`.
pub fn rec_decl_bytes(db: &mut Store, project_id: ProjectId, module: &str, name: &String) -> (bytes:
    Result<Option<Vec<u8>>, Error>)
    requires
        old(db).wf(),
    ensures
        final(db).wf(),
        final(db).extends(*old(db)),
        bytes_view(bytes) == answer_bytes::<RecDecl>(
            spec_rec_decl(old(db).inputs(), project_id, module@, name@),
        ),
{
    answer_to_bytes(rec_decl(db, project_id, module, name))
}

/// The bytes of the plain spec that holds of `id` in `module`.
pub fn fun_spec_bytes(db: &mut Store, project_id: ProjectId, module: &str, id: &Id) -> (bytes: Result<
    Option<Vec<u8>>,
    Error,
>)
    requires
        old(db).wf(),
        fun_spec_askable(old(db).inputs(), project_id, module@, id@),
    ensures
        final(db).wf(),
        final(db).extends(*old(db)),
        bytes_view(bytes) == answer_bytes::<FunSpec>(
            spec_fun_spec(old(db).inputs(), project_id, module@, id@),
        ),
{
    answer_to_bytes(fun_spec(db, project_id, module, id))
}

/// The bytes of the overloaded spec that holds of `id` in `module`.
pub fn overloaded_fun_spec_bytes(db: &mut Store, project_id: ProjectId, module: &str, id: &Id) -> (bytes:
    Result<Option<Vec<u8>>, Error>)
    requires
        old(db).wf(),
        overloaded_fun_spec_askable(old(db).inputs(), project_id, module@, id@),
    ensures
        final(db).wf(),
        final(db).extends(*old(db)),
        bytes_view(bytes) == answer_bytes::<OverloadedFunSpec>(
            spec_overloaded_fun_spec(old(db).inputs(), project_id, module@, id@),
        ),
{
    answer_to_bytes(overloaded_fun_spec(db, project_id, module, id))
}

/// What the type checker says of a module.
#[derive(Debug, PartialEq, Eq)]
pub enum EqwalizerDiagnostics {
    /// The type checker ran; these are its findings.
    Diagnostics(Vec<String>),
    /// The module has no syntax tree to check.
    NoAst(String),
    /// The type checker could not run; this is why.
    Error(String),
}

/// The text that diagnostics show for an error met on the way to them.
pub open spec fn diagnostics_error(module: Seq<char>, e: ErrorV) -> Seq<char> {
    "eqWAlizing module "@ + module + ":\n"@ + crate::error::error_message(e)
}

/// The diagnostics of a module, from what the type checker yielded, with the
/// number of the run. An error becomes a diagnostic that names the module.
/// No two runs have the same number, so that diagnostics are shown anew
/// after every run, whether or not they read like those before.
pub fn module_diagnostics(
    db: &mut Store,
    module: &str,
    outcome: Result<EqwalizerDiagnostics, Error>,
) -> (r: (EqwalizerDiagnostics, u64))
    requires
        old(db).wf(),
        old(db).diagnostics_runs() < u64::MAX,
    ensures
        final(db).wf(),
        r.1 == old(db).diagnostics_runs() + 1,
        final(db).diagnostics_runs() == r.1,
        final(db).inputs() == old(db).inputs(),
        final(db).revision() == old(db).revision(),
        final(db).recomputations() == old(db).recomputations(),
        forall|stage: Stage, p: ProjectId, m: Seq<char>|
            final(db).cached(stage, p, m) == old(db).cached(stage, p, m),
        match outcome {
            Ok(d) => r.0 == d,
            Err(e) => match r.0 {
                EqwalizerDiagnostics::Error(text) => text@ == diagnostics_error(module@, e@),
                _ => false,
            },
        },
{
    let stamp = db.next_diagnostics_run();
    match outcome {
        Ok(diag) => (diag, stamp),
        Err(err) => {
            let mut text = String::from_str("eqWAlizing module ");
            text.append(module);
            text.append(":\n");
            text.append(err.to_string().as_str());
            (EqwalizerDiagnostics::Error(text), stamp)
        },
    }
}

/// The callbacks of a module and those of them that are optional.
#[derive(Debug, PartialEq, Eq)]
pub struct Callbacks {
    pub callbacks: Vec<Callback>,
    pub optional_callbacks: Vec<Id>,
}

impl View for Callbacks {
    type V = (Seq<SignaturesV>, Seq<IdV>);

    open spec fn view(&self) -> (Seq<SignaturesV>, Seq<IdV>) {
        (callbacks_view(self.callbacks@), ids_view(self.optional_callbacks@))
    }
}

impl Nodal for Callbacks {
    open spec fn to_node_spec(v: (Seq<SignaturesV>, Seq<IdV>)) -> NodeV {
        NodeV::List(seq![list_to_node_spec::<Callback>(v.0), list_to_node_spec::<Id>(v.1)])
    }

    open spec fn from_node_spec(n: NodeV) -> Option<(Seq<SignaturesV>, Seq<IdV>)> {
        match n {
            NodeV::List(cs) => if cs.len() == 2 {
                match (
                    crate::nodes::node_to_list_spec::<Callback>(cs[0]),
                    crate::nodes::node_to_list_spec::<Id>(cs[1]),
                ) {
                    (Some(callbacks), Some(optional)) => Some((callbacks, optional)),
                    _ => None,
                }
            } else {
                None
            },
            _ => None,
        }
    }

    proof fn lemma_round_trip(v: (Seq<SignaturesV>, Seq<IdV>)) {
        crate::nodes::lemma_list_round_trip::<Callback>(v.0);
        crate::nodes::lemma_list_round_trip::<Id>(v.1);
    }

    fn to_node(&self) -> (n: Node) {
        crate::nodes::list2(
            crate::nodes::list_to_node(&self.callbacks),
            crate::nodes::list_to_node(&self.optional_callbacks),
        )
    }

    fn from_node(n: &Node) -> (r: Option<Callbacks>) {
        match as_list(n) {
            None => None,
            Some(cs) => {
                if cs.len() != 2 {
                    return None;
                }
                match (
                    crate::nodes::node_to_list::<Callback>(&cs[0]),
                    crate::nodes::node_to_list::<Id>(&cs[1]),
                ) {
                    (Some(callbacks), Some(optional_callbacks)) => Some(
                        Callbacks { callbacks, optional_callbacks },
                    ),
                    _ => None,
                }
            },
        }
    }
}

/// The callbacks that a module's transitive stub holds.
pub open spec fn spec_callbacks(inputs: crate::input::Inputs, project_id: ProjectId, module: Seq<char>) -> Result<
    (Seq<SignaturesV>, Seq<IdV>),
    ErrorV,
> {
    match spec_transitive_stub(inputs, project_id, module) {
        Err(e) => Err(e),
        Ok(stub) => Ok((stub.callbacks, stub.optional_callbacks)),
    }
}

/// The callbacks of a module and those of them that are optional.
pub fn callbacks(db: &mut Store, project_id: ProjectId, module: &str) -> (r: Result<Callbacks, Error>)
    requires
        old(db).wf(),
    ensures
        final(db).wf(),
        final(db).extends(*old(db)),
        match r {
            Ok(c) => spec_callbacks(old(db).inputs(), project_id, module@) == Ok::<
                (Seq<SignaturesV>, Seq<IdV>),
                ErrorV,
            >(c@),
            Err(e) => spec_callbacks(old(db).inputs(), project_id, module@) == Err::<
                (Seq<SignaturesV>, Seq<IdV>),
                ErrorV,
            >(e@),
        },
{
    match transitive_stub(db, project_id, module) {
        Err(e) => Err(e),
        Ok(stub) => {
            let mut list: Vec<Callback> = Vec::new();
            let mut i: usize = 0;
            while i < stub.callbacks.len()
                invariant
                    i <= stub.callbacks.len(),
                    list@.len() == i,
                    forall|j: int| 0 <= j < i ==> (#[trigger] list@[j])@ == stub.callbacks@[j]@,
                decreases stub.callbacks.len() - i,
            {
                list.push(stub.callbacks[i].clone());
                i = i + 1;
            }
            proof {
                assert(callbacks_view(list@) =~= callbacks_view(stub.callbacks@));
            }
            Ok(Callbacks { callbacks: list, optional_callbacks: clone_ids(&stub.optional_callbacks) })
        },
    }
}

/// The bytes of the callbacks of a module.
pub fn callbacks_bytes(db: &mut Store, project_id: ProjectId, module: &str) -> (bytes: Result<
    Option<Vec<u8>>,
    Error,
>)
    requires
        old(db).wf(),
    ensures
        final(db).wf(),
        final(db).extends(*old(db)),
        match bytes {
            Ok(Some(b)) => match spec_callbacks(old(db).inputs(), project_id, module@) {
                Ok(c) => b@ == spec_to_bytes::<Callbacks>(c),
                Err(_) => false,
            },
            Ok(None) => false,
            Err(e) => spec_callbacks(old(db).inputs(), project_id, module@) == Err::<
                (Seq<SignaturesV>, Seq<IdV>),
                ErrorV,
            >(e@),
        },
{
    match callbacks(db, project_id, module) {
        Err(e) => Err(e),
        Ok(c) => Ok(Some(to_bytes::<Callbacks>(&c))),
    }
}

/// Bytes or an error, as pure data.
pub open spec fn raw_view(r: Result<Vec<u8>, Error>) -> Result<Seq<u8>, ErrorV> {
    match r {
        Ok(b) => Ok(b@),
        Err(e) => Err(e@),
    }
}

/// Forms or an error, as pure data.
pub open spec fn ast_view(r: Result<AST, Error>) -> Result<Seq<ExternalFormV>, ErrorV> {
    match r {
        Ok(a) => Ok(a@),
        Err(e) => Err(e@),
    }
}

/// All the forms that the bytes of a module hold.
pub open spec fn spec_eqwalizer_ast(bytes: Result<Seq<u8>, ErrorV>) -> Result<
    Seq<ExternalFormV>,
    ErrorV,
> {
    match bytes {
        Err(e) => Err(e),
        Ok(b) => spec_ast_from_bytes(b, false),
    }
}

/// The bytes of the forms of a module that bear no declarations.
pub open spec fn spec_eqwalizer_ast_bytes(bytes: Result<Seq<u8>, ErrorV>) -> Result<Seq<u8>, ErrorV> {
    match spec_eqwalizer_ast(bytes) {
        Err(e) => Err(e),
        Ok(forms) => Ok(spec_to_bytes::<AST>(non_stub_forms(forms))),
    }
}

/// Where the syntax trees of modules come from, as bytes.
pub trait EqwalizerErlASTStorage {
    /// The bytes held for a module, or why there are none.
    spec fn ast_bytes(&self, project_id: ProjectId, module: Seq<char>) -> Result<Seq<u8>, ErrorV>;

    fn erl_ast_bytes(&self, project_id: ProjectId, module: &str) -> (bytes: Result<Vec<u8>, Error>)
        ensures
            raw_view(bytes) == self.ast_bytes(project_id, module@),
    ;

    /// All the forms of a module.
    fn eqwalizer_ast(&self, project_id: ProjectId, module: &str) -> (ast: Result<AST, Error>)
        ensures
            ast_view(ast) == spec_eqwalizer_ast(self.ast_bytes(project_id, module@)),
    {
        match self.erl_ast_bytes(project_id, module) {
            Err(e) => Err(e),
            Ok(bytes) => ast_from_bytes(bytes.as_slice(), false),
        }
    }

    /// The bytes of the forms of a module that bear no declarations.
    fn eqwalizer_ast_bytes(&self, project_id: ProjectId, module: &str) -> (bytes: Result<Vec<u8>, Error>)
        ensures
            raw_view(bytes) == spec_eqwalizer_ast_bytes(self.ast_bytes(project_id, module@)),
    {
        match self.eqwalizer_ast(project_id, module) {
            Err(e) => Err(e),
            Ok(ast) => Ok(non_stub_bytes(&ast)),
        }
    }
}

impl EqwalizerErlASTStorage for Store {
    open spec fn ast_bytes(&self, project_id: ProjectId, module: Seq<char>) -> Result<Seq<u8>, ErrorV> {
        spec_erl_ast_bytes(self.inputs(), project_id, module)
    }

    fn erl_ast_bytes(&self, project_id: ProjectId, module: &str) -> (bytes: Result<Vec<u8>, Error>) {
        match erl_ast_bytes(self, project_id, module) {
            Ok(b) => Ok(vstd::slice::slice_to_vec(b.as_slice())),
            Err(e) => Err(e),
        }
    }
}

/// The questions about the stubs of modules, as methods of what answers them.
pub trait EqwalizerDiagnosticsDatabase {
    /// The inputs that the answers are made of.
    spec fn db_inputs(&self) -> crate::input::Inputs;

    /// Whether questions can be asked.
    spec fn db_wf(&self) -> bool;

    /// How often diagnostics have been made.
    spec fn db_runs(&self) -> u64;

    fn converted_stub(&mut self, project_id: ProjectId, module: &str) -> (r: Result<Arc<AST>, Error>)
        requires
            old(self).db_wf(),
        ensures
            final(self).db_wf(),
            final(self).db_inputs() == old(self).db_inputs(),
            result_view(r) == spec_converted_stub(old(self).db_inputs(), project_id, module@),
    ;

    fn type_ids(&mut self, project_id: ProjectId, module: &str) -> (r: Result<Vec<(Id, Visibility)>, Error>)
        requires
            old(self).db_wf(),
        ensures
            final(self).db_wf(),
            final(self).db_inputs() == old(self).db_inputs(),
            match r {
                Ok(v) => spec_type_ids(spec_converted_stub(old(self).db_inputs(), project_id, module@))
                    == Ok::<Seq<(IdV, Visibility)>, ErrorV>(type_ids_view(v@)),
                Err(e) => spec_type_ids(spec_converted_stub(old(self).db_inputs(), project_id, module@))
                    == Err::<Seq<(IdV, Visibility)>, ErrorV>(e@),
            },
    ;

    fn expanded_stub(&mut self, project_id: ProjectId, module: &str) -> (r: Result<Arc<ModuleStub>, Error>)
        requires
            old(self).db_wf(),
        ensures
            final(self).db_wf(),
            final(self).db_inputs() == old(self).db_inputs(),
            result_view(r) == spec_expanded_stub(old(self).db_inputs(), project_id, module@),
    ;

    fn contractive_stub(&mut self, project_id: ProjectId, module: &str) -> (r: Result<Arc<VStub>, Error>)
        requires
            old(self).db_wf(),
        ensures
            final(self).db_wf(),
            final(self).db_inputs() == old(self).db_inputs(),
            result_view(r) == spec_contractive_stub(old(self).db_inputs(), project_id, module@),
    ;

    fn transitive_stub(&mut self, project_id: ProjectId, module: &str) -> (r: Result<Arc<ModuleStub>, Error>)
        requires
            old(self).db_wf(),
        ensures
            final(self).db_wf(),
            final(self).db_inputs() == old(self).db_inputs(),
            result_view(r) == spec_transitive_stub(old(self).db_inputs(), project_id, module@),
    ;

    fn custom_types(&mut self, project_id: ProjectId) -> (r: Result<Vec<Override<TypeDecl>>, Error>)
        requires
            old(self).db_wf(),
            custom_types_named(old(self).db_inputs(), project_id),
        ensures
            final(self).db_wf(),
            final(self).db_inputs() == old(self).db_inputs(),
            type_overrides_result(r) == spec_custom_types(old(self).db_inputs(), project_id),
    ;

    fn type_decl(&mut self, project_id: ProjectId, module: &str, id: &Id) -> (r: Result<Option<TypeDecl>, Error>)
        requires
            old(self).db_wf(),
            custom_types_named(old(self).db_inputs(), project_id),
        ensures
            final(self).db_wf(),
            final(self).db_inputs() == old(self).db_inputs(),
            answer_view(r) == spec_type_decl(old(self).db_inputs(), project_id, module@, id@),
    ;

    fn type_decl_bytes(&mut self, project_id: ProjectId, module: &str, id: &Id) -> (r: Result<Option<Vec<u8>>, Error>)
        requires
            old(self).db_wf(),
            custom_types_named(old(self).db_inputs(), project_id),
        ensures
            final(self).db_wf(),
            final(self).db_inputs() == old(self).db_inputs(),
            bytes_view(r) == answer_bytes::<TypeDecl>(spec_type_decl(old(self).db_inputs(), project_id, module@, id@)),
    ;

    fn rec_decl(&mut self, project_id: ProjectId, module: &str, name: &String) -> (r: Result<Option<RecDecl>, Error>)
        requires
            old(self).db_wf(),
        ensures
            final(self).db_wf(),
            final(self).db_inputs() == old(self).db_inputs(),
            answer_view(r) == spec_rec_decl(old(self).db_inputs(), project_id, module@, name@),
    ;

    fn rec_decl_bytes(&mut self, project_id: ProjectId, module: &str, name: &String) -> (r: Result<Option<Vec<u8>>, Error>)
        requires
            old(self).db_wf(),
        ensures
            final(self).db_wf(),
            final(self).db_inputs() == old(self).db_inputs(),
            bytes_view(r) == answer_bytes::<RecDecl>(spec_rec_decl(old(self).db_inputs(), project_id, module@, name@)),
    ;

    fn fun_spec(&mut self, project_id: ProjectId, module: &str, id: &Id) -> (r: Result<Option<FunSpec>, Error>)
        requires
            old(self).db_wf(),
            fun_spec_askable(old(self).db_inputs(), project_id, module@, id@),
        ensures
            final(self).db_wf(),
            final(self).db_inputs() == old(self).db_inputs(),
            answer_view(r) == spec_fun_spec(old(self).db_inputs(), project_id, module@, id@),
    ;

    fn fun_spec_bytes(&mut self, project_id: ProjectId, module: &str, id: &Id) -> (r: Result<Option<Vec<u8>>, Error>)
        requires
            old(self).db_wf(),
            fun_spec_askable(old(self).db_inputs(), project_id, module@, id@),
        ensures
            final(self).db_wf(),
            final(self).db_inputs() == old(self).db_inputs(),
            bytes_view(r) == answer_bytes::<FunSpec>(spec_fun_spec(old(self).db_inputs(), project_id, module@, id@)),
    ;

    fn overloaded_fun_spec(&mut self, project_id: ProjectId, module: &str, id: &Id) -> (r: Result<Option<OverloadedFunSpec>, Error>)
        requires
            old(self).db_wf(),
            overloaded_fun_spec_askable(old(self).db_inputs(), project_id, module@, id@),
        ensures
            final(self).db_wf(),
            final(self).db_inputs() == old(self).db_inputs(),
            answer_view(r) == spec_overloaded_fun_spec(old(self).db_inputs(), project_id, module@, id@),
    ;

    fn overloaded_fun_spec_bytes(&mut self, project_id: ProjectId, module: &str, id: &Id) -> (r: Result<Option<Vec<u8>>, Error>)
        requires
            old(self).db_wf(),
            overloaded_fun_spec_askable(old(self).db_inputs(), project_id, module@, id@),
        ensures
            final(self).db_wf(),
            final(self).db_inputs() == old(self).db_inputs(),
            bytes_view(r) == answer_bytes::<OverloadedFunSpec>(spec_overloaded_fun_spec(old(self).db_inputs(), project_id, module@, id@)),
    ;

    fn custom_fun_specs(&mut self, project_id: ProjectId) -> (r: Result<Vec<Override<FunSpec>>, Error>)
        requires
            old(self).db_wf(),
            custom_plain_named(old(self).db_inputs(), project_id),
        ensures
            final(self).db_wf(),
            final(self).db_inputs() == old(self).db_inputs(),
            spec_overrides_result(r) == spec_custom_fun_specs(old(self).db_inputs(), project_id),
    ;

    fn custom_overloaded_fun_specs(&mut self, project_id: ProjectId) -> (r: Result<Vec<Override<OverloadedFunSpec>>, Error>)
        requires
            old(self).db_wf(),
            custom_overloaded_named(old(self).db_inputs(), project_id),
        ensures
            final(self).db_wf(),
            final(self).db_inputs() == old(self).db_inputs(),
            overloaded_overrides_result(r) == spec_custom_overloaded_fun_specs(old(self).db_inputs(), project_id),
    ;

    fn transitive_stub_bytes(&mut self, project_id: ProjectId, module: &str) -> (r: Result<Vec<u8>, Error>)
        requires
            old(self).db_wf(),
        ensures
            final(self).db_wf(),
            final(self).db_inputs() == old(self).db_inputs(),
            raw_view(r) == match spec_transitive_stub(old(self).db_inputs(), project_id, module@) {
                Ok(stub) => Ok::<Seq<u8>, ErrorV>(spec_to_bytes::<ModuleStub>(stub)),
                Err(e) => Err::<Seq<u8>, ErrorV>(e),
            },
    ;

    fn callbacks(&mut self, project_id: ProjectId, module: &str) -> (r: Result<Callbacks, Error>)
        requires
            old(self).db_wf(),
        ensures
            final(self).db_wf(),
            final(self).db_inputs() == old(self).db_inputs(),
            match r {
                Ok(c) => spec_callbacks(old(self).db_inputs(), project_id, module@) == Ok::<
                    (Seq<SignaturesV>, Seq<IdV>),
                    ErrorV,
                >(c@),
                Err(e) => spec_callbacks(old(self).db_inputs(), project_id, module@) == Err::<
                    (Seq<SignaturesV>, Seq<IdV>),
                    ErrorV,
                >(e@),
            },
    ;

    fn callbacks_bytes(&mut self, project_id: ProjectId, module: &str) -> (r: Result<
        Option<Vec<u8>>,
        Error,
    >)
        requires
            old(self).db_wf(),
        ensures
            final(self).db_wf(),
            final(self).db_inputs() == old(self).db_inputs(),
            bytes_view(r) == match spec_callbacks(old(self).db_inputs(), project_id, module@) {
                Ok(c) => Ok::<Option<Seq<u8>>, ErrorV>(Some(spec_to_bytes::<Callbacks>(c))),
                Err(e) => Err::<Option<Seq<u8>>, ErrorV>(e),
            },
    ;

    fn module_diagnostics(&mut self, module: &str, outcome: Result<EqwalizerDiagnostics, Error>) -> (r: (
        EqwalizerDiagnostics,
        u64,
    ))
        requires
            old(self).db_wf(),
            old(self).db_runs() < u64::MAX,
        ensures
            final(self).db_wf(),
            final(self).db_inputs() == old(self).db_inputs(),
            r.1 == old(self).db_runs() + 1,
            final(self).db_runs() == r.1,
            match outcome {
                Ok(d) => r.0 == d,
                Err(e) => match r.0 {
                    EqwalizerDiagnostics::Error(text) => text@ == diagnostics_error(module@, e@),
                    _ => false,
                },
            },
    ;
}

impl EqwalizerDiagnosticsDatabase for Store {
    open spec fn db_inputs(&self) -> crate::input::Inputs {
        self.inputs()
    }

    open spec fn db_wf(&self) -> bool {
        self.wf()
    }

    open spec fn db_runs(&self) -> u64 {
        self.diagnostics_runs()
    }

    fn converted_stub(&mut self, project_id: ProjectId, module: &str) -> (r: Result<Arc<AST>, Error>) {
        let ghost before = *self;
        let r = converted_stub(self, project_id, module);
        proof {
            self.lemma_extends(before);
        }
        r
    }

    fn type_ids(&mut self, project_id: ProjectId, module: &str) -> (r: Result<Vec<(Id, Visibility)>, Error>) {
        let ghost before = *self;
        let r = type_ids(self, project_id, module);
        proof {
            self.lemma_extends(before);
        }
        r
    }

    fn expanded_stub(&mut self, project_id: ProjectId, module: &str) -> (r: Result<Arc<ModuleStub>, Error>) {
        let ghost before = *self;
        let r = expanded_stub(self, project_id, module);
        proof {
            self.lemma_extends(before);
        }
        r
    }

    fn contractive_stub(&mut self, project_id: ProjectId, module: &str) -> (r: Result<Arc<VStub>, Error>) {
        let ghost before = *self;
        let r = contractive_stub(self, project_id, module);
        proof {
            self.lemma_extends(before);
        }
        r
    }

    fn transitive_stub(&mut self, project_id: ProjectId, module: &str) -> (r: Result<Arc<ModuleStub>, Error>) {
        let ghost before = *self;
        let r = transitive_stub(self, project_id, module);
        proof {
            self.lemma_extends(before);
        }
        r
    }

    fn custom_types(&mut self, project_id: ProjectId) -> (r: Result<Vec<Override<TypeDecl>>, Error>) {
        let ghost before = *self;
        let r = custom_types(self, project_id);
        proof {
            self.lemma_extends(before);
        }
        r
    }

    fn type_decl(&mut self, project_id: ProjectId, module: &str, id: &Id) -> (r: Result<Option<TypeDecl>, Error>) {
        let ghost before = *self;
        let r = type_decl(self, project_id, module, id);
        proof {
            self.lemma_extends(before);
        }
        r
    }

    fn type_decl_bytes(&mut self, project_id: ProjectId, module: &str, id: &Id) -> (r: Result<Option<Vec<u8>>, Error>) {
        let ghost before = *self;
        let r = type_decl_bytes(self, project_id, module, id);
        proof {
            self.lemma_extends(before);
        }
        r
    }

    fn rec_decl(&mut self, project_id: ProjectId, module: &str, name: &String) -> (r: Result<Option<RecDecl>, Error>) {
        let ghost before = *self;
        let r = rec_decl(self, project_id, module, name);
        proof {
            self.lemma_extends(before);
        }
        r
    }

    fn rec_decl_bytes(&mut self, project_id: ProjectId, module: &str, name: &String) -> (r: Result<Option<Vec<u8>>, Error>) {
        let ghost before = *self;
        let r = rec_decl_bytes(self, project_id, module, name);
        proof {
            self.lemma_extends(before);
        }
        r
    }

    fn fun_spec(&mut self, project_id: ProjectId, module: &str, id: &Id) -> (r: Result<Option<FunSpec>, Error>) {
        let ghost before = *self;
        let r = fun_spec(self, project_id, module, id);
        proof {
            self.lemma_extends(before);
        }
        r
    }

    fn fun_spec_bytes(&mut self, project_id: ProjectId, module: &str, id: &Id) -> (r: Result<Option<Vec<u8>>, Error>) {
        let ghost before = *self;
        let r = fun_spec_bytes(self, project_id, module, id);
        proof {
            self.lemma_extends(before);
        }
        r
    }

    fn overloaded_fun_spec(&mut self, project_id: ProjectId, module: &str, id: &Id) -> (r: Result<Option<OverloadedFunSpec>, Error>) {
        let ghost before = *self;
        let r = overloaded_fun_spec(self, project_id, module, id);
        proof {
            self.lemma_extends(before);
        }
        r
    }

    fn overloaded_fun_spec_bytes(&mut self, project_id: ProjectId, module: &str, id: &Id) -> (r: Result<Option<Vec<u8>>, Error>) {
        let ghost before = *self;
        let r = overloaded_fun_spec_bytes(self, project_id, module, id);
        proof {
            self.lemma_extends(before);
        }
        r
    }

    fn custom_fun_specs(&mut self, project_id: ProjectId) -> (r: Result<Vec<Override<FunSpec>>, Error>) {
        let ghost before = *self;
        let r = custom_fun_specs(self, project_id);
        proof {
            self.lemma_extends(before);
        }
        r
    }

    fn custom_overloaded_fun_specs(&mut self, project_id: ProjectId) -> (r: Result<Vec<Override<OverloadedFunSpec>>, Error>) {
        let ghost before = *self;
        let r = custom_overloaded_fun_specs(self, project_id);
        proof {
            self.lemma_extends(before);
        }
        r
    }

    fn transitive_stub_bytes(&mut self, project_id: ProjectId, module: &str) -> (r: Result<Vec<u8>, Error>) {
        let ghost before = *self;
        let r = transitive_stub_bytes(self, project_id, module);
        proof {
            self.lemma_extends(before);
        }
        r
    }

    fn callbacks(&mut self, project_id: ProjectId, module: &str) -> (r: Result<Callbacks, Error>) {
        let ghost before = *self;
        let r = callbacks(self, project_id, module);
        proof {
            self.lemma_extends(before);
        }
        r
    }

    fn callbacks_bytes(&mut self, project_id: ProjectId, module: &str) -> (r: Result<
        Option<Vec<u8>>,
        Error,
    >) {
        let ghost before = *self;
        let r = callbacks_bytes(self, project_id, module);
        proof {
            self.lemma_extends(before);
        }
        r
    }

    fn module_diagnostics(&mut self, module: &str, outcome: Result<EqwalizerDiagnostics, Error>) -> (r: (
        EqwalizerDiagnostics,
        u64,
    )) {
        module_diagnostics(self, module, outcome)
    }
}

} // verus!
