use stub_pipeline::change::Change;
use stub_pipeline::db::callbacks;
use stub_pipeline::db::callbacks_bytes;
use stub_pipeline::db::module_diagnostics;
use stub_pipeline::db::EqwalizerDiagnosticsDatabase;
use stub_pipeline::db::EqwalizerErlASTStorage;
use stub_pipeline::erl_ast::ErlAstDatabase;
use stub_pipeline::db::Callbacks;
use stub_pipeline::db::EqwalizerDiagnostics;
use stub_pipeline::erl_ast::directory_of;
use stub_pipeline::erl_ast::elp_metadata;
use stub_pipeline::erl_ast::module_ast;
use stub_pipeline::erl_ast::resolve_include;
use stub_pipeline::erl_ast::AstStep;
use stub_pipeline::erl_ast::CompileOption;
use stub_pipeline::erl_ast::Format;
use stub_pipeline::erl_ast::IncludeType;
use stub_pipeline::erl_ast::Metadata;
use stub_pipeline::error::Error;
use stub_pipeline::form::Builtin;
use stub_pipeline::form::Callback;
use stub_pipeline::form::ExternalForm;
use stub_pipeline::form::Head;
use stub_pipeline::form::Type;
use stub_pipeline::form::AST;
use stub_pipeline::ids::FileId;
use stub_pipeline::ids::Id;
use stub_pipeline::ids::ProjectId;
use stub_pipeline::ids::SourceRootId;
use stub_pipeline::input::AppData;
use stub_pipeline::input::AppEntry;
use stub_pipeline::input::AppStructure;
use stub_pipeline::input::AppType;
use stub_pipeline::input::ModuleEntry;
use stub_pipeline::input::ParseResult;
use stub_pipeline::input::RootFile;
use stub_pipeline::input::SourceRoot;
use stub_pipeline::nodes::from_bytes;
use stub_pipeline::nodes::to_bytes;
use stub_pipeline::overrides::split_id;
use stub_pipeline::store::Store;
use stub_pipeline::text::split_once_colon;
use stub_pipeline::token_text::TokenText;

fn file(id: u32, path: &str) -> RootFile {
    RootFile { file_id: FileId(id), path: path.to_string() }
}

fn project() -> Store {
    let mut db = Store::new();
    let mut change = Change::new();
    change.set_roots(vec![
        SourceRoot {
            files: vec![
                file(1, "/lib/app_a/src/m.erl"),
                file(2, "/lib/app_a/src/m.hrl"),
                file(3, "/lib/app_a/include/a.hrl"),
                file(4, "/lib/app_a/doc/guide.md"),
            ],
        },
        SourceRoot { files: vec![file(5, "/lib/app_b/include/b.hrl"), file(6, "/stray/x.erl")] },
    ]);
    change.set_app_structure(AppStructure {
        apps: vec![AppEntry {
            source_root: SourceRootId(0),
            data: Some(AppData {
                project_id: ProjectId(3),
                name: "app_a".to_string(),
                dir: "/lib/app_a".to_string(),
                include_path: vec!["/nowhere".to_string(), "/lib/app_a/include".to_string()],
                app_type: AppType::App,
                ebin_path: None,
                macros: vec![eetf::Term::from(eetf::Atom::from("TEST"))],
                parse_transforms: vec![eetf::Term::from(eetf::FixInteger::from(7))],
            }),
            applicable_files: vec![],
        }],
        modules: vec![ModuleEntry { project_id: ProjectId(3), name: "m".to_string(), file_id: FileId(1) }],
    });
    change.change_file(FileId(1), Some("-module(m).\n\n-type t() :: atom().\n".to_string()));
    change.change_file(FileId(3), Some("-define(A, 1).".to_string()));
    change.apply(&mut db, &|_path: &String| None);
    db
}

#[test]
fn metadata_holds_the_line_starts() {
    let db = project();
    assert_eq!(elp_metadata(&db, FileId(1)), Metadata { line_starts: vec![0, 12, 13, 34] });
    assert_eq!(elp_metadata(&db, FileId(3)), Metadata { line_starts: vec![0] });
    assert_eq!(elp_metadata(&db, FileId(99)), Metadata { line_starts: vec![0] });
}

#[test]
fn a_file_of_an_application_is_to_be_parsed() {
    let db = project();
    match module_ast(&db, FileId(1)) {
        AstStep::Parse(request) => {
            assert_eq!(request.file_id, FileId(1));
            assert_eq!(request.path, "/lib/app_a/src/m.erl");
            assert_eq!(request.format, Format::OffsetEtf);
            assert_eq!(request.file_text, "-module(m).\n\n-type t() :: atom().\n");
            assert_eq!(request.options.len(), 3);
            match &request.options[0] {
                CompileOption::Macros(macros) => assert_eq!(
                    macros,
                    &vec![
                        eetf::Term::from(eetf::Atom::from("TEST")),
                        eetf::Term::from(eetf::Atom::from("ELP_ERLANG_SERVICE")),
                    ]
                ),
                _ => panic!("macros come first"),
            }
            match &request.options[1] {
                CompileOption::ParseTransforms(pts) => {
                    assert_eq!(pts, &vec![eetf::Term::from(eetf::FixInteger::from(7))])
                }
                _ => panic!("parse transforms come second"),
            }
            match &request.options[2] {
                CompileOption::ElpMetadata(md) => assert_eq!(md.line_starts, vec![0, 12, 13, 34]),
                _ => panic!("metadata comes third"),
            }
        }
        AstStep::Done(_) => panic!("nothing has been parsed yet"),
    }
}

#[test]
fn a_file_of_no_application_is_an_error() {
    let db = project();
    match module_ast(&db, FileId(6)) {
        AstStep::Done(result) => {
            assert!(!result.is_ok());
            assert!(result.ast.is_empty());
            assert_eq!(result.errors.len(), 1);
            assert_eq!(result.errors[0].path, "/stray/x.erl");
            assert_eq!(result.errors[0].location, None);
            assert_eq!(result.errors[0].msg, "Unknown application");
            assert_eq!(result.errors[0].code, "L0003");
        }
        AstStep::Parse(_) => panic!("there is no application to parse for"),
    }
}

#[test]
fn a_parsed_file_is_not_parsed_again() {
    let mut db = project();
    let at = db.get_revision();
    let bytes = to_bytes(&AST { forms: vec![ExternalForm::Module("m".to_string())] });
    db.supply_parse(at, FileId(1), vec![FileId(3)], ParseResult { ast: bytes.clone(), errors: vec![] })
        .unwrap();
    match module_ast(&db, FileId(1)) {
        AstStep::Done(result) => assert_eq!(result, ParseResult { ast: bytes, errors: vec![] }),
        AstStep::Parse(_) => panic!("the result is at hand"),
    }
    let mut change = Change::new();
    change.change_file(FileId(3), Some("-define(A, 2).".to_string()));
    change.apply(&mut db, &|_path: &String| None);
    assert!(matches!(module_ast(&db, FileId(1)), AstStep::Parse(_)));
}

#[test]
fn includes_are_looked_for_in_order() {
    let db = project();
    let found = |kind, path: &str| resolve_include(&db, FileId(1), kind, path);
    assert_eq!(
        found(IncludeType::Normal, "m.hrl"),
        Some(("/lib/app_a/src/m.hrl".to_string(), FileId(2), "".to_string()))
    );
    assert_eq!(
        found(IncludeType::Normal, "a.hrl"),
        Some(("/lib/app_a/include/a.hrl".to_string(), FileId(3), "-define(A, 1).".to_string()))
    );
    assert_eq!(found(IncludeType::Normal, "b.hrl"), None);
    assert_eq!(
        found(IncludeType::Lib, "app_b/include/b.hrl"),
        Some(("/lib/app_b/include/b.hrl".to_string(), FileId(5), "".to_string()))
    );
    assert_eq!(found(IncludeType::Lib, "a.hrl"), None);
    assert_eq!(
        found(IncludeType::Doc, "guide.md"),
        Some(("/lib/app_a/doc/guide.md".to_string(), FileId(4), "".to_string()))
    );
    assert_eq!(found(IncludeType::Doc, "m.hrl"), None);
    assert_eq!(resolve_include(&db, FileId(6), IncludeType::Lib, "app_b/include/b.hrl"), None);
    assert_eq!(resolve_include(&db, FileId(77), IncludeType::Normal, "m.hrl"), None);
}

#[test]
fn directory_is_what_stands_before_the_last_slash() {
    assert_eq!(directory_of("/lib/app_a/src/m.erl"), "/lib/app_a/src");
    assert_eq!(directory_of("m.erl"), "");
    assert_eq!(directory_of("/m.erl"), "");
    assert_eq!(directory_of("a/"), "a");
}

#[test]
fn names_split_at_the_first_colon() {
    assert_eq!(split_once_colon(&"a:t".to_string()), Some(("a".to_string(), "t".to_string())));
    assert_eq!(split_once_colon(&"a:b:c".to_string()), Some(("a".to_string(), "b:c".to_string())));
    assert_eq!(split_once_colon(&":t".to_string()), Some(("".to_string(), "t".to_string())));
    assert_eq!(split_once_colon(&"a:".to_string()), Some(("a".to_string(), "".to_string())));
    assert_eq!(split_once_colon(&"plain".to_string()), None);
    assert_eq!(split_once_colon(&"\u{e9}t\u{e9}:\u{2192}".to_string()), Some(("\u{e9}t\u{e9}".to_string(), "\u{2192}".to_string())));
    assert_eq!(
        split_id(&Id { name: "m:f".to_string(), arity: 2 }),
        Some(("m".to_string(), Id { name: "f".to_string(), arity: 2 }))
    );
}

#[test]
fn diagnostics_are_numbered_and_errors_name_the_module() {
    let mut db = project();
    let found = EqwalizerDiagnostics::Diagnostics(vec!["expected atom()".to_string()]);
    let (first, one) = module_diagnostics(&mut db, "m", Ok(found));
    assert_eq!(first, EqwalizerDiagnostics::Diagnostics(vec!["expected atom()".to_string()]));
    let (second, two) = module_diagnostics(&mut db, "m", Err(Error::ModuleNotFound("m".to_string())));
    assert_eq!(second, EqwalizerDiagnostics::Error("eqWAlizing module m:\nmodule not found: m".to_string()));
    let (third, three) = module_diagnostics(&mut db, "m", Err(Error::ModuleNotFound("m".to_string())));
    assert_eq!(second, third);
    assert_eq!((one, two, three), (1, 2, 3));
    assert_eq!(db.get_diagnostics_runs(), 3);
    assert_eq!(
        Error::BEAMNotFound("/e/m.beam".to_string()).to_string(),
        "BEAM file not found: /e/m.beam"
    );
    assert_eq!(Error::TypeConversionError("t".to_string()).to_string(), "type conversion error: t");
    assert_eq!(Error::AstUnavailable(FileId(1)).to_string(), "syntax tree not available");
}

#[test]
fn callbacks_come_with_the_optional_ones() {
    let mut db = project();
    let at = db.get_revision();
    let any = Type { head: Head::Builtin(Builtin::AnyType), args: vec![] };
    let init = Id { name: "init".to_string(), arity: 1 };
    let forms = AST {
        forms: vec![
            ExternalForm::Callback(Callback { id: init.clone(), tys: vec![any.clone()] }),
            ExternalForm::OptionalCallbacks(vec![init.clone(), init.clone()]),
        ],
    };
    db.supply_parse(at, FileId(1), vec![], ParseResult { ast: to_bytes(&forms), errors: vec![] }).unwrap();
    let expected =
        Callbacks { callbacks: vec![Callback { id: init.clone(), tys: vec![any] }], optional_callbacks: vec![init] };
    assert_eq!(callbacks(&mut db, ProjectId(3), "m").as_ref(), Ok(&expected));
    let bytes = callbacks_bytes(&mut db, ProjectId(3), "m").unwrap().unwrap();
    assert_eq!(from_bytes::<Callbacks>(&bytes), Some(expected));
    assert_eq!(callbacks(&mut db, ProjectId(3), "x"), Err(Error::ModuleNotFound("x".to_string())));
}

#[test]
fn token_text_reads_the_same_wherever_it_is_held() {
    let green = rowan::GreenToken::new(rowan::SyntaxKind(0), "foo");
    let owned = TokenText::owned(green);
    let borrowed = TokenText::borrowed("foo");
    assert_eq!(owned.as_str(), "foo");
    assert_eq!(borrowed.as_str(), "foo");
    assert_eq!(owned.to_string(), "foo".to_string());
    assert!(owned.same(&borrowed));
    assert!(owned.same_as("foo"));
    assert!(!owned.same_as("fo"));
    assert!(!borrowed.same(&TokenText::borrowed("bar")));
}

#[test]
fn the_store_answers_as_a_database() {
    let mut db = project();
    assert_eq!(ErlAstDatabase::elp_metadata(&db, FileId(3)), Metadata { line_starts: vec![0] });
    assert!(matches!(ErlAstDatabase::module_ast(&db, FileId(1)), AstStep::Parse(_)));
    assert_eq!(db.erl_ast_bytes(ProjectId(3), "m"), Err(Error::AstUnavailable(FileId(1))));
    let at = db.get_revision();
    let forms = AST {
        forms: vec![
            ExternalForm::Module("m".to_string()),
            ExternalForm::TypeDecl(stub_pipeline::form::TypeDecl {
                id: Id { name: "t".to_string(), arity: 0 },
                params: vec![],
                body: Type { head: Head::Builtin(Builtin::AtomType), args: vec![] },
            }),
        ],
    };
    db.supply_parse(at, FileId(1), vec![], ParseResult { ast: to_bytes(&forms), errors: vec![] }).unwrap();
    assert_eq!(db.erl_ast_bytes(ProjectId(3), "m"), Ok(to_bytes(&forms)));
    assert_eq!(db.eqwalizer_ast(ProjectId(3), "m").as_ref(), Ok(&forms));
    let stub = EqwalizerDiagnosticsDatabase::transitive_stub(&mut db, ProjectId(3), "m").unwrap();
    assert_eq!(stub.types.len(), 1);
    let bytes = EqwalizerDiagnosticsDatabase::transitive_stub_bytes(&mut db, ProjectId(3), "m").unwrap();
    assert_eq!(from_bytes::<stub_pipeline::stub::ModuleStub>(&bytes).as_ref(), Some(&*stub));
    let (_, run) = EqwalizerDiagnosticsDatabase::module_diagnostics(
        &mut db,
        "m",
        Ok(EqwalizerDiagnostics::NoAst("m".to_string())),
    );
    assert_eq!(run, 1);
}

#[test]
fn a_file_that_lost_its_application_has_no_syntax_tree() {
    let mut db = project();
    let at = db.get_revision();
    let bytes = to_bytes(&AST { forms: vec![ExternalForm::Module("m".to_string())] });
    db.supply_parse(at, FileId(1), vec![], ParseResult { ast: bytes, errors: vec![] }).unwrap();
    assert!(matches!(module_ast(&db, FileId(1)), AstStep::Done(_)));
    let mut change = Change::new();
    change.set_app_structure(AppStructure {
        apps: vec![AppEntry { source_root: SourceRootId(0), data: None, applicable_files: vec![] }],
        modules: vec![],
    });
    change.apply(&mut db, &|_path: &String| None);
    assert!(db.get_inputs().module_ast(FileId(1)).is_none());
    match module_ast(&db, FileId(1)) {
        AstStep::Done(result) => {
            assert_eq!(result.errors.len(), 1);
            assert_eq!(result.errors[0].msg, "Unknown application");
            assert_eq!(result.errors[0].code, "L0003");
            assert!(result.ast.is_empty());
        }
        AstStep::Parse(_) => panic!("the file has no application"),
    }
}

#[test]
fn a_change_of_structure_asks_for_a_new_parse() {
    let mut db = project();
    let at = db.get_revision();
    let bytes = to_bytes(&AST { forms: vec![ExternalForm::Module("m".to_string())] });
    db.supply_parse(at, FileId(1), vec![], ParseResult { ast: bytes, errors: vec![] }).unwrap();
    let mut change = Change::new();
    change.set_app_structure(AppStructure {
        apps: vec![AppEntry {
            source_root: SourceRootId(0),
            data: Some(AppData {
                project_id: ProjectId(3),
                name: "app_a".to_string(),
                dir: "/lib/app_a".to_string(),
                include_path: vec![],
                app_type: AppType::App,
                ebin_path: None,
                macros: vec![eetf::Term::from(eetf::Atom::from("OTHER"))],
                parse_transforms: vec![],
            }),
            applicable_files: vec![],
        }],
        modules: vec![ModuleEntry { project_id: ProjectId(3), name: "m".to_string(), file_id: FileId(1) }],
    });
    change.apply(&mut db, &|_path: &String| None);
    match module_ast(&db, FileId(1)) {
        AstStep::Parse(request) => match &request.options[0] {
            CompileOption::Macros(macros) => assert_eq!(
                macros[0],
                eetf::Term::from(eetf::Atom::from("OTHER"))
            ),
            _ => panic!("macros come first"),
        },
        AstStep::Done(_) => panic!("the old tree was made with other macros"),
    }
}

#[test]
fn an_included_file_comes_with_its_own_path() {
    let mut db = Store::new();
    let mut change = Change::new();
    change.set_roots(vec![
        SourceRoot { files: vec![file(1, "/a/src/m.erl"), file(2, "/a/src/h.hrl")] },
        SourceRoot { files: vec![file(2, "/b/h.hrl")] },
    ]);
    change.apply(&mut db, &|_path: &String| None);
    assert_eq!(db.get_inputs().path_for_file(FileId(2)).unwrap(), "/b/h.hrl");
    assert_eq!(
        resolve_include(&db, FileId(1), IncludeType::Normal, "h.hrl"),
        Some(("/b/h.hrl".to_string(), FileId(2), "".to_string()))
    );
}
