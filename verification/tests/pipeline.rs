use stub_pipeline::change::Change;
use stub_pipeline::change::Shown;
use stub_pipeline::db::check_custom_specs;
use stub_pipeline::db::check_custom_types;
use stub_pipeline::db::contractive_stub;
use stub_pipeline::db::converted_stub;
use stub_pipeline::db::custom_fun_specs;
use stub_pipeline::db::custom_overloaded_fun_specs;
use stub_pipeline::db::custom_types;
use stub_pipeline::db::EqwalizerErlASTStorage;
use stub_pipeline::db::expanded_stub;
use stub_pipeline::db::fun_spec;
use stub_pipeline::db::overloaded_fun_spec;
use stub_pipeline::db::rec_decl;
use stub_pipeline::db::transitive_stub;
use stub_pipeline::db::transitive_stub_bytes;
use stub_pipeline::db::type_decl;
use stub_pipeline::db::type_decl_bytes;
use stub_pipeline::db::type_ids;
use stub_pipeline::db::Visibility;
use stub_pipeline::error::Error;
use stub_pipeline::error::ParseError;
use stub_pipeline::form::Builtin;
use stub_pipeline::form::ExternalForm;
use stub_pipeline::form::ExternalFunSpec;
use stub_pipeline::form::Head;
use stub_pipeline::form::RecDecl;
use stub_pipeline::form::RecField;
use stub_pipeline::form::Type;
use stub_pipeline::form::TypeDecl;
use stub_pipeline::form::AST;
use stub_pipeline::ids::FileId;
use stub_pipeline::ids::Id;
use stub_pipeline::ids::ProjectId;
use stub_pipeline::ids::SourceRootId;
use stub_pipeline::input::AppData;
use stub_pipeline::input::AppEntry;
use stub_pipeline::input::AppStructure;
use stub_pipeline::input::AppType;
use stub_pipeline::input::ModuleEntry;
use stub_pipeline::input::ParseResult;
use stub_pipeline::input::RootFile;
use stub_pipeline::input::SourceRoot;
use stub_pipeline::nodes::from_bytes;
use stub_pipeline::nodes::to_bytes;
use stub_pipeline::store::Cancelled;
use stub_pipeline::store::Stage;
use stub_pipeline::store::Store;
use stub_pipeline::stub::ModuleStub;

const P: ProjectId = ProjectId(0);

fn id(name: &str, arity: u32) -> Id {
    Id { name: name.to_string(), arity }
}

fn leaf(head: Head) -> Type {
    Type { head, args: vec![] }
}

fn builtin(b: Builtin) -> Type {
    leaf(Head::Builtin(b))
}

fn atom(name: &str) -> Type {
    leaf(Head::AtomLit(name.to_string()))
}

fn local(name: &str) -> Type {
    leaf(Head::Local(name.to_string()))
}

fn remote(module: &str, name: &str) -> Type {
    leaf(Head::Remote(module.to_string(), name.to_string()))
}

fn tuple(args: Vec<Type>) -> Type {
    Type { head: Head::Tuple, args }
}

fn union(args: Vec<Type>) -> Type {
    Type { head: Head::Union, args }
}

fn fun(args: Vec<Type>) -> Type {
    Type { head: Head::Fun, args }
}

fn type_form(name: &str, body: Type) -> ExternalForm {
    ExternalForm::TypeDecl(TypeDecl { id: id(name, 0), params: vec![], body })
}

fn spec_form(name: &str, arity: u32, types: Vec<Type>) -> ExternalForm {
    ExternalForm::FunSpec(ExternalFunSpec { id: id(name, arity), types })
}

fn app(project: u32, app_type: AppType, ebin: Option<&str>) -> AppData {
    AppData {
        project_id: ProjectId(project),
        name: "app".to_string(),
        dir: "/src".to_string(),
        include_path: vec![],
        app_type,
        ebin_path: ebin.map(|e| e.to_string()),
        macros: vec![],
        parse_transforms: vec![],
    }
}

/// A store with one source root per project; module `i` lies in file `i`.
fn store(modules: &[(u32, &str, Option<AST>)]) -> Store {
    let mut db = Store::new();
    let mut change = Change::new();
    let projects: Vec<u32> = {
        let mut ps: Vec<u32> = modules.iter().map(|m| m.0).collect();
        ps.sort();
        ps.dedup();
        ps
    };
    let mut roots = vec![];
    let mut apps = vec![];
    for (root, project) in projects.iter().enumerate() {
        let mut files = vec![];
        for (i, (p, name, _)) in modules.iter().enumerate() {
            if p == project {
                files.push(RootFile { file_id: FileId(i as u32), path: format!("/src/{name}.erl") });
            }
        }
        roots.push(SourceRoot { files });
        apps.push(AppEntry {
            source_root: SourceRootId(root as u32),
            data: Some(app(*project, AppType::App, None)),
            applicable_files: vec![],
        });
    }
    let entries = modules
        .iter()
        .enumerate()
        .map(|(i, (p, name, _))| ModuleEntry {
            project_id: ProjectId(*p),
            name: name.to_string(),
            file_id: FileId(i as u32),
        })
        .collect();
    change.set_roots(roots);
    change.set_app_structure(AppStructure { apps, modules: entries });
    for (i, (_, name, _)) in modules.iter().enumerate() {
        change.change_file(FileId(i as u32), Some(format!("-module({name}).")));
    }
    assert!(change.can_apply(&db));
    change.apply(&mut db, &|_path: &String| None);
    for (i, (_, _, ast)) in modules.iter().enumerate() {
        if let Some(ast) = ast {
            parse(&mut db, i as u32, ast);
        }
    }
    db
}

fn parse(db: &mut Store, file: u32, ast: &AST) {
    let at = db.get_revision();
    let result = ParseResult { ast: to_bytes(ast), errors: vec![] };
    assert_eq!(db.supply_parse(at, FileId(file), vec![], result), Ok(()));
}

fn ast(forms: Vec<ExternalForm>) -> AST {
    AST { forms }
}

fn type_names(stub: &ModuleStub) -> Vec<String> {
    stub.types.iter().map(|d| d.id.name.clone()).collect()
}

#[test]
fn self_reference_is_not_productive() {
    let mut db = store(&[(
        0,
        "m",
        Some(ast(vec![
            type_form("t", local("t")),
            type_form(
                "tree",
                union(vec![tuple(vec![atom("leaf")]), tuple(vec![atom("node"), local("tree")])]),
            ),
        ])),
    )]);
    let v = contractive_stub(&mut db, P, "m").unwrap();
    assert_eq!(type_names(&v.stub), vec!["t", "tree"]);
    assert_eq!(v.productive, vec![false, true]);
    let stub = transitive_stub(&mut db, P, "m").unwrap();
    assert_eq!(type_names(&stub), vec!["tree"]);
}

#[test]
fn unguarded_cycle_through_two_types_is_not_productive() {
    let mut db = store(&[(
        0,
        "m",
        Some(ast(vec![
            type_form("a", union(vec![atom("x"), local("b")])),
            type_form("b", local("a")),
            type_form("c", tuple(vec![local("c")])),
        ])),
    )]);
    let v = contractive_stub(&mut db, P, "m").unwrap();
    assert_eq!(v.productive, vec![false, false, true]);
}

#[test]
fn dependents_of_an_unproductive_type_leave_the_transitive_stub() {
    let mut db = store(&[(
        0,
        "m",
        Some(ast(vec![
            type_form("t", local("t")),
            type_form("wraps", tuple(vec![atom("ok"), local("t")])),
            type_form("far", Type { head: Head::List, args: vec![local("wraps")] }),
            type_form("fine", builtin(Builtin::IntegerType)),
            spec_form("f", 1, vec![fun(vec![local("far"), builtin(Builtin::AtomType)])]),
            spec_form("g", 0, vec![fun(vec![local("fine")])]),
        ])),
    )]);
    let v = contractive_stub(&mut db, P, "m").unwrap();
    assert_eq!(v.productive, vec![false, true, true, true]);
    let stub = transitive_stub(&mut db, P, "m").unwrap();
    assert_eq!(type_names(&stub), vec!["fine"]);
    assert_eq!(stub.specs.len(), 1);
    assert_eq!(stub.specs[0].id, id("g", 0));
}

#[test]
fn local_references_become_remote_ones() {
    let mut db = store(&[(
        0,
        "m",
        Some(ast(vec![
            type_form("t", builtin(Builtin::IntegerType)),
            type_form("u", tuple(vec![local("t")])),
        ])),
    )]);
    let stub = expanded_stub(&mut db, P, "m").unwrap();
    assert_eq!(stub.module, "m");
    assert_eq!(stub.types[1].body, tuple(vec![remote("m", "t")]));
}

#[test]
fn remote_reference_needs_an_exported_type() {
    let other = ast(vec![
        ExternalForm::ExportType(vec![id("open", 0)]),
        type_form("open", builtin(Builtin::AtomType)),
        type_form("hidden", builtin(Builtin::AtomType)),
    ]);
    let mut db = store(&[
        (
            0,
            "m",
            Some(ast(vec![
                type_form("a", remote("other", "open")),
                type_form("b", remote("other", "hidden")),
                type_form("c", remote("other", "absent")),
                type_form("d", local("absent")),
            ])),
        ),
        (0, "other", Some(other)),
    ]);
    let stub = expanded_stub(&mut db, P, "m").unwrap();
    assert_eq!(type_names(&stub), vec!["a"]);
    assert_eq!(
        type_ids(&mut db, P, "other"),
        Ok(vec![(id("open", 0), Visibility::Public), (id("hidden", 0), Visibility::Private)])
    );
}

#[test]
fn errors_of_a_referenced_module_reach_the_stub() {
    let mut db = store(&[(0, "m", Some(ast(vec![type_form("a", remote("nowhere", "t"))])))]);
    assert_eq!(expanded_stub(&mut db, P, "m"), Err(Error::TypeConversionError("nowhere".to_string())));
    assert_eq!(transitive_stub(&mut db, P, "m"), Err(Error::TypeConversionError("nowhere".to_string())));
}

#[test]
fn a_referenced_module_that_waits_for_its_parse_ends_the_stage() {
    let mut db = store(&[
        (0, "m", Some(ast(vec![type_form("a", remote("later", "t"))]))),
        (0, "later", None),
    ]);
    assert_eq!(expanded_stub(&mut db, P, "m"), Err(Error::AstUnavailable(FileId(1))));
}

#[test]
fn only_the_absence_of_the_reserved_module_itself_means_no_overrides() {
    let mut db = store(&[(
        0,
        "eqwalizer_types",
        Some(ast(vec![type_form("a:t", remote("nowhere", "u"))])),
    )]);
    assert!(check_custom_types(&mut db, P));
    assert_eq!(custom_types(&mut db, P), Err(Error::TypeConversionError("nowhere".to_string())));
    assert_eq!(
        type_decl(&mut db, P, "a", &id("t", 0)),
        Err(Error::TypeConversionError("nowhere".to_string()))
    );
}

#[test]
fn a_failing_module_costs_only_the_declarations_that_name_it() {
    let broken = ast(vec![
        ExternalForm::ExportType(vec![id("t", 0)]),
        type_form("t", builtin(Builtin::AnyType)),
        type_form("t", builtin(Builtin::NoneType)),
    ]);
    let mut db = store(&[
        (
            0,
            "m",
            Some(ast(vec![
                type_form("loop", local("loop")),
                type_form("tree", union(vec![tuple(vec![atom("leaf")]), tuple(vec![atom("node"), local("tree")])])),
                type_form("bare", remote("broken", "t")),
                type_form("held", tuple(vec![remote("broken", "t")])),
            ])),
        ),
        (0, "broken", Some(broken)),
    ]);
    assert_eq!(expanded_stub(&mut db, P, "broken"), Err(Error::TypeConversionError("t".to_string())));
    let v = contractive_stub(&mut db, P, "m").unwrap();
    assert_eq!(type_names(&v.stub), vec!["loop", "tree", "bare", "held"]);
    assert_eq!(v.productive, vec![false, true, true, true]);
    let stub = transitive_stub(&mut db, P, "m").unwrap();
    assert_eq!(type_names(&stub), vec!["tree"]);
    assert!(stub.foreign.is_empty());
}


#[test]
fn conversion_errors_name_the_declaration() {
    let ill = Type { head: Head::List, args: vec![] };
    let mut db = store(&[
        (0, "shape", Some(ast(vec![type_form("bad", ill)]))),
        (
            0,
            "twice",
            Some(ast(vec![
                type_form("t", builtin(Builtin::AnyType)),
                type_form("t", builtin(Builtin::NoneType)),
            ])),
        ),
        (0, "empty", Some(ast(vec![spec_form("f", 0, vec![])]))),
        (
            0,
            "both",
            Some(ast(vec![
                spec_form("f", 0, vec![fun(vec![builtin(Builtin::AtomType)])]),
                spec_form(
                    "f",
                    0,
                    vec![fun(vec![builtin(Builtin::AtomType)]), fun(vec![builtin(Builtin::PidType)])],
                ),
            ])),
        ),
        (
            0,
            "rec",
            Some(ast(vec![
                ExternalForm::RecDecl(RecDecl { name: "r".to_string(), fields: vec![] }),
                ExternalForm::RecDecl(RecDecl { name: "r".to_string(), fields: vec![] }),
            ])),
        ),
    ]);
    for (module, name) in [("shape", "bad"), ("twice", "t"), ("empty", "f"), ("both", "f"), ("rec", "r")] {
        assert_eq!(
            expanded_stub(&mut db, P, module),
            Err(Error::TypeConversionError(name.to_string())),
            "{module}"
        );
    }
}

#[test]
fn module_errors_by_kind() {
    let mut db = store(&[(0, "m", None), (0, "broken", None), (0, "garbled", None)]);
    assert_eq!(converted_stub(&mut db, P, "absent"), Err(Error::ModuleNotFound("absent".to_string())));
    assert_eq!(converted_stub(&mut db, ProjectId(9), "m"), Err(Error::ModuleNotFound("m".to_string())));
    assert_eq!(converted_stub(&mut db, P, "m"), Err(Error::AstUnavailable(FileId(0))));
    let error = ParseError {
        path: "/src/broken.erl".to_string(),
        location: None,
        msg: "syntax error".to_string(),
        code: "P1711".to_string(),
    };
    let at = db.get_revision();
    let failed = ParseResult::error(ParseError { ..clone_error(&error) });
    assert_eq!(db.supply_parse(at, FileId(1), vec![], failed), Ok(()));
    assert_eq!(converted_stub(&mut db, P, "broken"), Err(Error::ParseError(error)));
    let garbled = ParseResult { ast: vec![1, 2, 3], errors: vec![] };
    assert_eq!(db.supply_parse(at, FileId(2), vec![], garbled), Ok(()));
    assert_eq!(
        converted_stub(&mut db, P, "garbled"),
        Err(Error::TypeConversionError("malformed syntax tree".to_string()))
    );
    assert_eq!(
        Error::ModuleNotFound("absent".to_string()).to_string(),
        "module not found: absent"
    );
}

fn clone_error(e: &ParseError) -> ParseError {
    e.clone()
}

#[test]
fn platform_modules_are_read_from_their_artifact() {
    let mut db = Store::new();
    let mut change = Change::new();
    change.set_roots(vec![SourceRoot {
        files: vec![RootFile { file_id: FileId(7), path: "/otp/lists.erl".to_string() }],
    }]);
    change.set_app_structure(AppStructure {
        apps: vec![AppEntry {
            source_root: SourceRootId(0),
            data: Some(app(0, AppType::Otp, Some("/otp/ebin"))),
            applicable_files: vec![],
        }],
        modules: vec![ModuleEntry { project_id: P, name: "lists".to_string(), file_id: FileId(7) }],
    });
    change.apply(&mut db, &|_path: &String| None);
    assert_eq!(
        converted_stub(&mut db, P, "lists"),
        Err(Error::BEAMNotFound("/otp/ebin/lists.beam".to_string()))
    );
    let forms = ast(vec![
        ExternalForm::Module("lists".to_string()),
        type_form("t", builtin(Builtin::AnyType)),
    ]);
    let at = db.get_revision();
    assert_eq!(db.supply_beam(at, "/otp/ebin/lists.beam".to_string(), to_bytes(&forms)), Ok(()));
    let converted = converted_stub(&mut db, P, "lists").unwrap();
    assert_eq!(converted.forms, vec![type_form("t", builtin(Builtin::AnyType))]);
}

#[test]
fn converted_stub_keeps_the_forms_that_bear_declarations() {
    let forms = ast(vec![
        ExternalForm::Module("m".to_string()),
        ExternalForm::File("m.erl".to_string()),
        ExternalForm::ExportType(vec![id("t", 0)]),
        type_form("t", builtin(Builtin::AnyType)),
        ExternalForm::FunDecl(id("f", 0)),
        ExternalForm::Behaviour("gen_server".to_string()),
        ExternalForm::OptionalCallbacks(vec![id("init", 1)]),
        ExternalForm::ElpMetadata("x".to_string()),
        ExternalForm::EqwalizerNowarnFunction(id("f", 0)),
        ExternalForm::EqwalizerUnlimitedRefinement(id("f", 0)),
    ]);
    let mut db = store(&[(0, "m", Some(ast(forms.forms.iter().map(copy_form).collect())))]);
    let converted = converted_stub(&mut db, P, "m").unwrap();
    assert_eq!(
        converted.forms,
        vec![
            ExternalForm::ExportType(vec![id("t", 0)]),
            type_form("t", builtin(Builtin::AnyType)),
            ExternalForm::OptionalCallbacks(vec![id("init", 1)]),
        ]
    );
    assert_eq!(db.eqwalizer_ast(P, "m").unwrap().forms.len(), 10);
    let rest = from_bytes::<AST>(&db.eqwalizer_ast_bytes(P, "m").unwrap()).unwrap();
    assert_eq!(
        rest.forms,
        vec![
            ExternalForm::Module("m".to_string()),
            ExternalForm::File("m.erl".to_string()),
            ExternalForm::FunDecl(id("f", 0)),
            ExternalForm::Behaviour("gen_server".to_string()),
            ExternalForm::ElpMetadata("x".to_string()),
            ExternalForm::EqwalizerNowarnFunction(id("f", 0)),
            ExternalForm::EqwalizerUnlimitedRefinement(id("f", 0)),
        ]
    );
}

fn copy_form(f: &ExternalForm) -> ExternalForm {
    from_bytes::<AST>(&to_bytes(&AST { forms: vec![from_one(f)] })).unwrap().forms.remove(0)
}

fn from_one(f: &ExternalForm) -> ExternalForm {
    match f {
        ExternalForm::Module(s) => ExternalForm::Module(s.clone()),
        ExternalForm::File(s) => ExternalForm::File(s.clone()),
        ExternalForm::ElpMetadata(s) => ExternalForm::ElpMetadata(s.clone()),
        ExternalForm::Behaviour(s) => ExternalForm::Behaviour(s.clone()),
        ExternalForm::FunDecl(i) => ExternalForm::FunDecl(i.clone()),
        ExternalForm::EqwalizerNowarnFunction(i) => ExternalForm::EqwalizerNowarnFunction(i.clone()),
        ExternalForm::EqwalizerUnlimitedRefinement(i) => {
            ExternalForm::EqwalizerUnlimitedRefinement(i.clone())
        }
        ExternalForm::ExportType(ids) => ExternalForm::ExportType(ids.iter().map(|i| i.clone()).collect()),
        ExternalForm::OptionalCallbacks(ids) => {
            ExternalForm::OptionalCallbacks(ids.iter().map(|i| i.clone()).collect())
        }
        ExternalForm::TypeDecl(d) => ExternalForm::TypeDecl(d.clone()),
        ExternalForm::RecDecl(d) => ExternalForm::RecDecl(d.clone()),
        ExternalForm::Callback(d) => ExternalForm::Callback(d.clone()),
        ExternalForm::FunSpec(d) => ExternalForm::FunSpec(ExternalFunSpec {
            id: d.id.clone(),
            types: d.types.iter().map(|t| t.clone()).collect(),
        }),
    }
}

#[test]
fn override_of_a_type_wins_over_the_module() {
    let mut db = store(&[
        (0, "a", Some(ast(vec![type_form("t", builtin(Builtin::IntegerType))]))),
        (0, "eqwalizer_types", Some(ast(vec![type_form("a:t", builtin(Builtin::AtomType))]))),
    ]);
    assert!(check_custom_types(&mut db, P));
    let decl = type_decl(&mut db, P, "a", &id("t", 0)).unwrap().unwrap();
    assert_eq!(decl.body, builtin(Builtin::AtomType));
    assert_eq!(decl.id, id("a:t", 0));
    let custom = custom_types(&mut db, P).unwrap();
    assert_eq!(custom.len(), 1);
    assert_eq!(custom[0].module, "a");
    assert_eq!(custom[0].id, id("t", 0));
    let bytes = type_decl_bytes(&mut db, P, "a", &id("t", 0)).unwrap().unwrap();
    assert_eq!(from_bytes::<TypeDecl>(&bytes), Some(decl));
    assert_eq!(type_decl(&mut db, P, "a", &id("t", 1)), Ok(None));
}

#[test]
fn without_override_the_module_answers() {
    let mut db = store(&[(
        0,
        "a",
        Some(ast(vec![
            type_form("t", builtin(Builtin::IntegerType)),
            ExternalForm::RecDecl(RecDecl {
                name: "r".to_string(),
                fields: vec![RecField { name: "x".to_string(), ty: local("t") }],
            }),
        ])),
    )]);
    assert!(check_custom_types(&mut db, P));
    assert!(check_custom_specs(&mut db, P));
    assert_eq!(custom_types(&mut db, P), Ok(vec![]));
    assert_eq!(custom_fun_specs(&mut db, P), Ok(vec![]));
    assert_eq!(custom_overloaded_fun_specs(&mut db, P), Ok(vec![]));
    let decl = type_decl(&mut db, P, "a", &id("t", 0)).unwrap().unwrap();
    assert_eq!(decl.body, builtin(Builtin::IntegerType));
    let rec = rec_decl(&mut db, P, "a", &"r".to_string()).unwrap().unwrap();
    assert_eq!(rec.fields[0].ty, remote("a", "t"));
    assert_eq!(rec_decl(&mut db, P, "a", &"s".to_string()), Ok(None));
}

#[test]
fn override_precedence_of_specs() {
    let plain = fun(vec![builtin(Builtin::AtomType)]);
    let other = fun(vec![builtin(Builtin::PidType)]);
    let mut db = store(&[
        (
            0,
            "a",
            Some(ast(vec![
                spec_form("f", 0, vec![plain.clone()]),
                spec_form("g", 0, vec![plain.clone(), other.clone()]),
                spec_form("h", 0, vec![plain.clone()]),
                spec_form("k", 0, vec![plain.clone(), other.clone()]),
            ])),
        ),
        (
            0,
            "eqwalizer_specs",
            Some(ast(vec![
                spec_form("a:f", 0, vec![other.clone(), plain.clone()]),
                spec_form("a:g", 0, vec![other.clone()]),
            ])),
        ),
    ]);
    assert!(check_custom_specs(&mut db, P));
    // f has an overloaded override
    assert_eq!(fun_spec(&mut db, P, "a", &id("f", 0)), Ok(None));
    let f = overloaded_fun_spec(&mut db, P, "a", &id("f", 0)).unwrap().unwrap();
    assert_eq!(f.tys, vec![other.clone(), plain.clone()]);
    // g has a plain override
    assert_eq!(overloaded_fun_spec(&mut db, P, "a", &id("g", 0)), Ok(None));
    let g = fun_spec(&mut db, P, "a", &id("g", 0)).unwrap().unwrap();
    assert_eq!(g.ty, other);
    // h and k have none
    let h = fun_spec(&mut db, P, "a", &id("h", 0)).unwrap().unwrap();
    assert_eq!(h.ty, plain);
    assert_eq!(overloaded_fun_spec(&mut db, P, "a", &id("h", 0)), Ok(None));
    let k = overloaded_fun_spec(&mut db, P, "a", &id("k", 0)).unwrap().unwrap();
    assert_eq!(k.tys.len(), 2);
    assert_eq!(fun_spec(&mut db, P, "a", &id("k", 0)), Ok(None));
}

#[test]
fn names_without_a_colon_are_found_out() {
    let mut db = store(&[(
        0,
        "eqwalizer_types",
        Some(ast(vec![type_form("plain", builtin(Builtin::AtomType))])),
    )]);
    assert!(!check_custom_types(&mut db, P));
    assert!(check_custom_specs(&mut db, P));
}

#[test]
fn errors_of_the_reserved_module_other_than_absence_are_errors() {
    let mut db = store(&[(0, "eqwalizer_types", None)]);
    assert!(check_custom_types(&mut db, P));
    assert_eq!(custom_types(&mut db, P), Err(Error::AstUnavailable(FileId(0))));
    assert_eq!(type_decl(&mut db, P, "a", &id("t", 0)), Err(Error::AstUnavailable(FileId(0))));
}

#[test]
fn a_stub_is_computed_once_while_nothing_changes() {
    let mut db = store(&[(0, "m", Some(ast(vec![type_form("t", builtin(Builtin::AnyType))])))]);
    assert_eq!(db.get_recomputations(), 0);
    assert!(!db.is_cached(Stage::Transitive, P, "m"));
    let first = transitive_stub(&mut db, P, "m").unwrap();
    assert_eq!(db.get_recomputations(), 4);
    assert!(db.is_cached(Stage::Transitive, P, "m"));
    assert!(db.is_cached(Stage::Converted, P, "m"));
    let second = transitive_stub(&mut db, P, "m").unwrap();
    assert_eq!(db.get_recomputations(), 4);
    assert_eq!(first, second);
    assert_eq!(
        from_bytes::<ModuleStub>(&transitive_stub_bytes(&mut db, P, "m").unwrap()).as_ref(),
        Some(&*first)
    );
}

#[test]
fn a_changed_file_costs_its_project_its_stubs_and_no_other() {
    let mut db = store(&[
        (0, "m", Some(ast(vec![type_form("t", builtin(Builtin::AnyType))]))),
        (1, "n", Some(ast(vec![type_form("u", builtin(Builtin::AtomType))]))),
    ]);
    transitive_stub(&mut db, P, "m").unwrap();
    transitive_stub(&mut db, ProjectId(1), "n").unwrap();
    let computed = db.get_recomputations();
    let mut change = Change::new();
    change.change_file(FileId(0), Some("-module(m).\n-type t() :: atom().".to_string()));
    let changed = change.apply(&mut db, &|_path: &String| None);
    assert_eq!(changed, vec![FileId(0)]);
    assert_eq!(db.get_revision(), 2);
    assert!(!db.is_cached(Stage::Transitive, P, "m"));
    assert!(!db.is_cached(Stage::Converted, P, "m"));
    assert!(db.is_cached(Stage::Transitive, ProjectId(1), "n"));
    // the other project's stub is not computed again
    transitive_stub(&mut db, ProjectId(1), "n").unwrap();
    assert_eq!(db.get_recomputations(), computed);
    // the changed module has to be parsed again, and then says what the new text says
    assert_eq!(transitive_stub(&mut db, P, "m"), Err(Error::AstUnavailable(FileId(0))));
    assert_eq!(db.get_inputs().file_text(FileId(0)).unwrap(), "-module(m).\n-type t() :: atom().");
    parse(&mut db, 0, &ast(vec![type_form("t", builtin(Builtin::AtomType))]));
    let stub = transitive_stub(&mut db, P, "m").unwrap();
    assert_eq!(stub.types[0].body, builtin(Builtin::AtomType));
    assert!(db.get_recomputations() > computed);
}

#[test]
fn a_changed_header_costs_the_modules_that_include_it() {
    let mut db = store(&[(0, "m", None), (1, "n", None)]);
    let at = db.get_revision();
    let forms = ast(vec![type_form("t", builtin(Builtin::AnyType))]);
    let result = ParseResult { ast: to_bytes(&forms), errors: vec![] };
    assert_eq!(db.supply_parse(at, FileId(0), vec![FileId(40)], result), Ok(()));
    parse(&mut db, 1, &forms);
    transitive_stub(&mut db, P, "m").unwrap();
    transitive_stub(&mut db, ProjectId(1), "n").unwrap();
    let mut change = Change::new();
    change.change_file(FileId(40), None);
    change.apply(&mut db, &|_path: &String| None);
    assert_eq!(db.get_inputs().file_text(FileId(40)).unwrap(), "");
    assert!(db.get_inputs().module_ast(FileId(0)).is_none());
    assert!(db.get_inputs().module_ast(FileId(1)).is_some());
    assert!(!db.is_cached(Stage::Transitive, P, "m"));
    assert!(db.is_cached(Stage::Transitive, ProjectId(1), "n"));
}

#[test]
fn work_begun_before_a_change_is_turned_away() {
    let mut db = store(&[(0, "m", None), (0, "other", None)]);
    let started = db.get_revision();
    assert_eq!(db.check_cancelled(started), Ok(()));
    let mut change = Change::new();
    change.change_file(FileId(1), Some("-module(other).".to_string()));
    change.apply(&mut db, &|_path: &String| None);
    assert_eq!(db.check_cancelled(started), Err(Cancelled));
    let result = ParseResult { ast: to_bytes(&ast(vec![])), errors: vec![] };
    assert_eq!(db.supply_parse(started, FileId(0), vec![], result), Err(Cancelled));
    assert!(db.get_inputs().module_ast(FileId(0)).is_none());
    assert_eq!(db.supply_beam(started, "/x.beam".to_string(), vec![]), Err(Cancelled));
    assert!(db.get_inputs().beam("/x.beam").is_none());
    assert_eq!(converted_stub(&mut db, P, "m"), Err(Error::AstUnavailable(FileId(0))));
}

#[test]
fn apply_installs_roots_structure_and_texts() {
    let mut db = Store::new();
    let mut change = Change::new();
    change.set_roots(vec![
        SourceRoot { files: vec![RootFile { file_id: FileId(1), path: "/a/one.erl".to_string() }] },
        SourceRoot {
            files: vec![
                RootFile { file_id: FileId(2), path: "/b/two.erl".to_string() },
                RootFile { file_id: FileId(1), path: "/b/one.erl".to_string() },
            ],
        },
    ]);
    change.set_app_structure(AppStructure {
        apps: vec![
            AppEntry {
                source_root: SourceRootId(0),
                data: Some(app(5, AppType::Dep, None)),
                applicable_files: vec!["/b/two.erl".to_string(), "/nowhere".to_string()],
            },
            AppEntry { source_root: SourceRootId(1), data: None, applicable_files: vec![] },
        ],
        modules: vec![],
    });
    change.change_file(FileId(2), Some("first".to_string()));
    change.change_file(FileId(1), None);
    change.change_file(FileId(2), Some("second".to_string()));
    let changed = change.apply(&mut db, &|path: &String| {
        if path == "/b/two.erl" {
            Some(FileId(2))
        } else {
            None
        }
    });
    assert_eq!(changed, vec![FileId(2), FileId(1), FileId(2)]);
    let inputs = db.get_inputs();
    assert_eq!(db.get_revision(), 1);
    // a file of two roots belongs to the last
    assert_eq!(inputs.file_source_root(FileId(1)), Some(SourceRootId(1)));
    assert_eq!(inputs.file_source_root(FileId(2)), Some(SourceRootId(1)));
    assert_eq!(inputs.file_source_root(FileId(3)), None);
    assert_eq!(inputs.path_for_file(FileId(1)).unwrap(), "/b/one.erl");
    assert_eq!(inputs.file_text(FileId(2)).unwrap(), "second");
    assert_eq!(inputs.file_text(FileId(1)).unwrap(), "");
    assert!(inputs.file_text(FileId(3)).is_none());
    // file 2 was assigned to the application of root 0, file 1 is left with root 1, which has none
    assert_eq!(inputs.file_app_data(FileId(2)).unwrap().project_id, ProjectId(5));
    assert!(inputs.file_app_data(FileId(1)).is_none());
    assert_eq!(inputs.source_root(SourceRootId(1)).unwrap().file_for_path("/b/two.erl"), Some(FileId(2)));
}

#[test]
fn stubs_are_the_same_on_every_run() {
    let forms = || {
        ast(vec![
            type_form("t", union(vec![atom("a"), tuple(vec![local("t")])])),
            spec_form("f", 1, vec![fun(vec![local("t"), builtin(Builtin::AtomType)])]),
        ])
    };
    let mut one = store(&[(0, "m", Some(forms()))]);
    let mut two = store(&[(0, "m", Some(forms()))]);
    let a = transitive_stub(&mut one, P, "m").unwrap();
    let b = transitive_stub(&mut two, P, "m").unwrap();
    let c = transitive_stub(&mut one, P, "m").unwrap();
    assert_eq!(a, b);
    assert_eq!(a, c);
}

#[test]
fn the_transitive_stub_holds_the_foreign_declarations_it_stands_on() {
    let other = ast(vec![
        ExternalForm::ExportType(vec![id("open", 0)]),
        type_form("open", tuple(vec![local("inner"), remote("m", "mine")])),
        type_form("inner", union(vec![atom("a"), remote("third", "t")])),
        type_form("unused", builtin(Builtin::AnyType)),
    ]);
    let third = ast(vec![
        ExternalForm::ExportType(vec![id("t", 0)]),
        type_form("t", builtin(Builtin::PidType)),
    ]);
    let mut db = store(&[
        (
            0,
            "m",
            Some(ast(vec![
                ExternalForm::ExportType(vec![id("mine", 0)]),
                type_form("mine", builtin(Builtin::AtomType)),
                type_form("a", remote("other", "open")),
                spec_form("f", 1, vec![fun(vec![remote("other", "open"), local("mine")])]),
            ])),
        ),
        (0, "other", Some(other)),
        (0, "third", Some(third)),
    ]);
    let stub = transitive_stub(&mut db, P, "m").unwrap();
    assert_eq!(type_names(&stub), vec!["mine", "a"]);
    let held: Vec<(String, String)> =
        stub.foreign.iter().map(|f| (f.module.clone(), f.decl.id.name.clone())).collect();
    assert_eq!(
        held,
        vec![
            ("other".to_string(), "open".to_string()),
            ("other".to_string(), "inner".to_string()),
            ("third".to_string(), "t".to_string()),
        ]
    );
    assert_eq!(stub.foreign[1].decl.body, union(vec![atom("a"), remote("third", "t")]));
    assert!(expanded_stub(&mut db, P, "m").unwrap().foreign.is_empty());
}

#[test]
fn a_changed_file_spares_the_stubs_that_do_not_stand_on_it() {
    let shared = ast(vec![
        ExternalForm::ExportType(vec![id("t", 0)]),
        type_form("t", builtin(Builtin::AnyType)),
    ]);
    let mut db = store(&[
        (0, "m", Some(shared)),
        (0, "n", Some(ast(vec![type_form("u", builtin(Builtin::AtomType))]))),
        (0, "user", Some(ast(vec![type_form("v", tuple(vec![remote("m", "t")]))]))),
    ]);
    assert!(!db.is_pinned(Stage::Transitive, P, "n"));
    assert_eq!(db.pinned_files(Stage::Transitive, P, "n"), None);
    let n = transitive_stub(&mut db, P, "n").unwrap();
    let user = transitive_stub(&mut db, P, "user").unwrap();
    assert_eq!(type_names(&user), vec!["v"]);
    assert_eq!(db.pinned_files(Stage::Transitive, P, "n"), Some(vec![FileId(1)]));
    let mut stands_on = db.pinned_files(Stage::Transitive, P, "user").unwrap();
    stands_on.sort_by_key(|f| f.0);
    assert_eq!(stands_on, vec![FileId(0), FileId(2)]);
    let computed = db.get_recomputations();

    let mut change = Change::new();
    change.change_file(FileId(0), Some("-module(m).\n-type t() :: atom().".to_string()));
    assert_eq!(change.apply(&mut db, &|_path: &String| None), vec![FileId(0)]);
    // the project's tables are stale, the stub of `n` is kept with its files
    assert!(!db.is_cached(Stage::Transitive, P, "n"));
    assert!(db.is_pinned(Stage::Transitive, P, "n"));
    assert!(!db.is_pinned(Stage::Transitive, P, "user"));
    assert!(!db.is_pinned(Stage::Transitive, P, "m"));
    assert_eq!(transitive_stub(&mut db, P, "n").unwrap(), n);
    assert_eq!(db.get_recomputations(), computed);
    // the module that names the changed one waits for the new parse
    assert_eq!(transitive_stub(&mut db, P, "user"), Err(Error::AstUnavailable(FileId(0))));
    let after_user = db.get_recomputations();
    assert!(after_user > computed);

    parse(
        &mut db,
        0,
        &ast(vec![
            ExternalForm::ExportType(vec![id("t", 0)]),
            type_form("t", builtin(Builtin::AtomType)),
        ]),
    );
    assert!(db.is_pinned(Stage::Transitive, P, "n"));
    assert!(!db.is_pinned(Stage::Transitive, P, "user"));
    assert_eq!(transitive_stub(&mut db, P, "n").unwrap(), n);
    assert_eq!(db.get_recomputations(), after_user);
    let user = transitive_stub(&mut db, P, "user").unwrap();
    assert_eq!(type_names(&user), vec!["v"]);
    assert!(db.get_recomputations() > after_user);
    assert!(db.is_pinned(Stage::Transitive, P, "user"));
}

#[test]
fn a_change_of_structure_keeps_no_stub() {
    let forms = || ast(vec![type_form("u", builtin(Builtin::AtomType))]);
    let mut db = store(&[(0, "n", Some(forms())), (0, "m", Some(forms()))]);
    transitive_stub(&mut db, P, "n").unwrap();
    assert!(db.is_pinned(Stage::Transitive, P, "n"));
    let structure = AppStructure {
        apps: vec![AppEntry {
            source_root: SourceRootId(0),
            data: Some(app(0, AppType::App, None)),
            applicable_files: vec![],
        }],
        modules: vec![ModuleEntry { project_id: P, name: "n".to_string(), file_id: FileId(0) }],
    };
    let mut change = Change::new();
    change.set_app_structure(structure);
    change.apply(&mut db, &|_path: &String| None);
    assert!(!db.is_pinned(Stage::Transitive, P, "n"));
    assert_eq!(db.pinned_files(Stage::Transitive, P, "n"), None);
}

#[test]
fn a_changed_header_costs_the_stubs_of_the_modules_that_include_it() {
    let mut db = store(&[(0, "m", None), (0, "n", None)]);
    let at = db.get_revision();
    let forms = ast(vec![type_form("t", builtin(Builtin::AnyType))]);
    let result = ParseResult { ast: to_bytes(&forms), errors: vec![] };
    assert_eq!(db.supply_parse(at, FileId(0), vec![FileId(40)], result), Ok(()));
    parse(&mut db, 1, &forms);
    transitive_stub(&mut db, P, "m").unwrap();
    transitive_stub(&mut db, P, "n").unwrap();
    let computed = db.get_recomputations();
    let mut change = Change::new();
    change.change_file(FileId(40), Some("-define(X, 1).".to_string()));
    change.apply(&mut db, &|_path: &String| None);
    assert!(!db.is_pinned(Stage::Transitive, P, "m"));
    assert!(db.is_pinned(Stage::Transitive, P, "n"));
    transitive_stub(&mut db, P, "n").unwrap();
    assert_eq!(db.get_recomputations(), computed);
}

#[test]
fn a_changed_file_spares_every_stage_of_the_modules_that_do_not_stand_on_it() {
    let shared = ast(vec![
        ExternalForm::ExportType(vec![id("t", 0)]),
        type_form("t", builtin(Builtin::AnyType)),
    ]);
    let mut db = store(&[
        (0, "m", Some(shared)),
        (0, "n", Some(ast(vec![type_form("u", builtin(Builtin::AtomType))]))),
        (0, "user", Some(ast(vec![type_form("v", tuple(vec![remote("m", "t")]))]))),
    ]);
    let converted = converted_stub(&mut db, P, "n").unwrap();
    let expanded = expanded_stub(&mut db, P, "n").unwrap();
    let contractive = contractive_stub(&mut db, P, "n").unwrap();
    transitive_stub(&mut db, P, "user").unwrap();
    assert_eq!(db.pinned_files(Stage::Converted, P, "user"), Some(vec![FileId(2)]));
    assert_eq!(db.pinned_files(Stage::Expanded, P, "n"), Some(vec![FileId(1)]));
    let mut stands_on = db.pinned_files(Stage::Contractive, P, "user").unwrap();
    stands_on.sort_by_key(|f| f.0);
    assert_eq!(stands_on, vec![FileId(0), FileId(2)]);
    let computed = db.get_recomputations();

    let mut change = Change::new();
    change.change_file(FileId(0), Some("-module(m).\n-type t() :: atom().".to_string()));
    change.apply(&mut db, &|_path: &String| None);
    for stage in [Stage::Converted, Stage::Expanded, Stage::Contractive] {
        assert!(!db.is_cached(stage, P, "n"));
        assert!(db.is_pinned(stage, P, "n"));
        assert!(!db.is_pinned(stage, P, "m"));
    }
    assert!(db.is_pinned(Stage::Converted, P, "user"));
    assert!(!db.is_pinned(Stage::Expanded, P, "user"));
    assert!(!db.is_pinned(Stage::Contractive, P, "user"));
    assert_eq!(converted_stub(&mut db, P, "n").unwrap(), converted);
    assert_eq!(expanded_stub(&mut db, P, "n").unwrap(), expanded);
    assert_eq!(contractive_stub(&mut db, P, "n").unwrap(), contractive);
    assert_eq!(db.get_recomputations(), computed);

    parse(
        &mut db,
        0,
        &ast(vec![
            ExternalForm::ExportType(vec![id("t", 0)]),
            type_form("t", builtin(Builtin::AtomType)),
        ]),
    );
    // of `user` the forms are still kept; its three later stages and the
    // first three stages of `m` are computed again
    transitive_stub(&mut db, P, "user").unwrap();
    assert_eq!(db.get_recomputations(), computed + 6);
}

#[test]
fn a_change_shows_what_is_set_and_how_many_files() {
    let mut change = Change::new();
    let shown = change.shown();
    assert_eq!(shown, Shown { roots: false, files_changed: None, app_structure: false });
    change.change_file(FileId(3), Some("a".to_string()));
    change.change_file(FileId(4), None);
    change.set_roots(vec![]);
    let shown = change.shown();
    assert_eq!(shown, Shown { roots: true, files_changed: Some(2), app_structure: false });
}

#[test]
fn an_expanded_stub_stands_on_the_modules_that_its_forms_name_and_no_further() {
    let exported = |name: &str, body: Type| {
        ast(vec![ExternalForm::ExportType(vec![id(name, 0)]), type_form(name, body)])
    };
    let mut db = store(&[
        (0, "a", Some(ast(vec![type_form("t", tuple(vec![remote("b", "u")]))]))),
        (0, "b", Some(exported("u", tuple(vec![remote("c", "w")])))),
        (0, "c", Some(exported("w", builtin(Builtin::AtomType)))),
    ]);
    let expanded = expanded_stub(&mut db, P, "a").unwrap();
    let contractive = contractive_stub(&mut db, P, "a").unwrap();
    assert_eq!(db.pinned_files(Stage::Expanded, P, "a"), Some(vec![FileId(0), FileId(1)]));
    assert_eq!(
        db.pinned_files(Stage::Contractive, P, "a"),
        Some(vec![FileId(0), FileId(1), FileId(2)])
    );

    let mut change = Change::new();
    change.change_file(FileId(2), Some("-module(c).\n-type w() :: pid().".to_string()));
    change.apply(&mut db, &|_path: &String| None);
    parse(&mut db, 2, &exported("w", builtin(Builtin::PidType)));
    assert!(db.is_pinned(Stage::Expanded, P, "a"));
    assert!(!db.is_pinned(Stage::Contractive, P, "a"));
    let computed = db.get_recomputations();
    assert_eq!(expanded_stub(&mut db, P, "a").unwrap(), expanded);
    assert_eq!(db.get_recomputations(), computed);
    assert_eq!(contractive_stub(&mut db, P, "a").unwrap(), contractive);
    assert!(db.get_recomputations() > computed);
}
