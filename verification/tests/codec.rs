use stub_pipeline::codec::decode;
use stub_pipeline::codec::encode;
use stub_pipeline::codec::Node;
use stub_pipeline::form::Builtin;
use stub_pipeline::form::Callback;
use stub_pipeline::form::ExternalForm;
use stub_pipeline::form::FunSpec;
use stub_pipeline::form::Head;
use stub_pipeline::form::OverloadedFunSpec;
use stub_pipeline::form::RecDecl;
use stub_pipeline::form::RecField;
use stub_pipeline::form::Type;
use stub_pipeline::form::TypeDecl;
use stub_pipeline::form::AST;
use stub_pipeline::ids::Id;
use stub_pipeline::nodes::from_bytes;
use stub_pipeline::nodes::to_bytes;
use stub_pipeline::stub::ForeignDecl;
use stub_pipeline::stub::ModuleStub;

fn leaf(head: Head) -> Type {
    Type { head, args: vec![] }
}

fn id(name: &str, arity: u32) -> Id {
    Id { name: name.to_string(), arity }
}

fn tree() -> Type {
    Type {
        head: Head::Union,
        args: vec![
            Type { head: Head::Tuple, args: vec![leaf(Head::AtomLit("leaf".to_string()))] },
            Type {
                head: Head::Tuple,
                args: vec![
                    leaf(Head::AtomLit("node".to_string())),
                    leaf(Head::Remote("m".to_string(), "t".to_string())),
                ],
            },
        ],
    }
}

fn sample_stub() -> ModuleStub {
    ModuleStub {
        module: "m".to_string(),
        types: vec![TypeDecl { id: id("t", 0), params: vec![], body: tree() }, TypeDecl {
            id: id("box", 1),
            params: vec!["T".to_string()],
            body: Type { head: Head::List, args: vec![leaf(Head::Var("T".to_string()))] },
        }],
        records: vec![RecDecl {
            name: "state".to_string(),
            fields: vec![RecField { name: "count".to_string(), ty: leaf(Head::Builtin(Builtin::IntegerType)) }],
        }],
        specs: vec![FunSpec {
            id: id("size", 1),
            ty: Type {
                head: Head::Fun,
                args: vec![leaf(Head::Local("t".to_string())), leaf(Head::Builtin(Builtin::NumberType))],
            },
        }],
        overloaded_specs: vec![OverloadedFunSpec {
            id: id("conv", 1),
            tys: vec![leaf(Head::Builtin(Builtin::AtomType)), leaf(Head::Builtin(Builtin::BinaryType))],
        }],
        callbacks: vec![Callback { id: id("init", 1), tys: vec![leaf(Head::Builtin(Builtin::AnyType))] }],
        optional_callbacks: vec![id("init", 1)],
        foreign: vec![ForeignDecl {
            module: "other".to_string(),
            decl: TypeDecl { id: id("u", 0), params: vec![], body: leaf(Head::Builtin(Builtin::PidType)) },
        }],
    }
}

#[test]
fn number_node_has_the_documented_bytes() {
    assert_eq!(encode(&Node::Num(0x01020304)), vec![0, 4, 0, 0, 0, 0, 0, 0, 0, 4, 3, 2, 1]);
}

#[test]
fn text_node_has_the_documented_bytes() {
    assert_eq!(encode(&Node::Text("ok".to_string())), vec![1, 2, 0, 0, 0, 0, 0, 0, 0, b'o', b'k']);
}

#[test]
fn list_node_holds_its_nodes_one_after_the_other() {
    let bytes = encode(&Node::List(vec![Node::Num(7), Node::List(vec![])]));
    assert_eq!(
        bytes,
        vec![2, 22, 0, 0, 0, 0, 0, 0, 0, 0, 4, 0, 0, 0, 0, 0, 0, 0, 7, 0, 0, 0, 2, 0, 0, 0, 0, 0, 0, 0, 0]
    );
    assert_eq!(decode(&bytes), Some(Node::List(vec![Node::Num(7), Node::List(vec![])])));
}

#[test]
fn decode_rejects_malformed_bytes() {
    assert_eq!(decode(&[]), None);
    assert_eq!(decode(&[0, 4, 0, 0, 0, 0, 0, 0, 0, 1, 2, 3]), None);
    assert_eq!(decode(&[0, 3, 0, 0, 0, 0, 0, 0, 0, 1, 2, 3]), None);
    assert_eq!(decode(&[9, 0, 0, 0, 0, 0, 0, 0, 0]), None);
    assert_eq!(decode(&[1, 1, 0, 0, 0, 0, 0, 0, 0, 0xff]), None);
    assert_eq!(decode(&[2, 1, 0, 0, 0, 0, 0, 0, 0, 7]), None);
    assert_eq!(decode(&[0, 4, 0, 0, 0, 0, 0, 0, 0, 1, 2, 3, 4, 5]), None);
}

#[test]
fn text_with_wide_characters_round_trips() {
    let node = Node::Text("typ\u{e9} \u{2192} \u{1f600}".to_string());
    assert_eq!(decode(&encode(&node)), Some(node));
}

#[test]
fn type_round_trips() {
    let ty = tree();
    let bytes = to_bytes(&ty);
    assert_eq!(from_bytes::<Type>(&bytes), Some(ty));
}

#[test]
fn each_declaration_round_trips() {
    let stub = sample_stub();
    assert_eq!(from_bytes::<TypeDecl>(&to_bytes(&stub.types[1])).as_ref(), Some(&stub.types[1]));
    assert_eq!(from_bytes::<RecDecl>(&to_bytes(&stub.records[0])).as_ref(), Some(&stub.records[0]));
    assert_eq!(from_bytes::<FunSpec>(&to_bytes(&stub.specs[0])).as_ref(), Some(&stub.specs[0]));
    assert_eq!(
        from_bytes::<OverloadedFunSpec>(&to_bytes(&stub.overloaded_specs[0])).as_ref(),
        Some(&stub.overloaded_specs[0])
    );
    assert_eq!(from_bytes::<Callback>(&to_bytes(&stub.callbacks[0])).as_ref(), Some(&stub.callbacks[0]));
}

#[test]
fn stub_round_trips() {
    let stub = sample_stub();
    let bytes = to_bytes(&stub);
    assert_eq!(from_bytes::<ModuleStub>(&bytes), Some(stub));
}

#[test]
fn forms_round_trip() {
    let ast = AST {
        forms: vec![
            ExternalForm::Module("m".to_string()),
            ExternalForm::File("m.erl".to_string()),
            ExternalForm::ExportType(vec![id("t", 0)]),
            ExternalForm::TypeDecl(TypeDecl { id: id("t", 0), params: vec![], body: tree() }),
            ExternalForm::FunDecl(id("size", 1)),
            ExternalForm::OptionalCallbacks(vec![id("init", 1)]),
            ExternalForm::Behaviour("gen_server".to_string()),
            ExternalForm::EqwalizerNowarnFunction(id("size", 1)),
        ],
    };
    assert_eq!(from_bytes::<AST>(&to_bytes(&ast)), Some(ast));
}

#[test]
fn a_stub_is_not_read_as_a_declaration() {
    let bytes = to_bytes(&sample_stub());
    assert_eq!(from_bytes::<TypeDecl>(&bytes), None);
    assert_eq!(from_bytes::<Type>(&bytes), None);
}

#[test]
fn unknown_builtin_code_is_rejected() {
    let node = Node::List(vec![
        Node::List(vec![Node::Num(0), Node::Num(99)]),
        Node::List(vec![]),
    ]);
    assert_eq!(from_bytes::<Type>(&encode(&node)), None);
}
