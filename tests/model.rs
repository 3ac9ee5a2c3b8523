use vuk::aidl::{build_model, create_model, create_model_with_warnings};
use vuk::ast;
use vuk::model::{Error, Item, Model, Package, Type};
use vuk::parse::parse;
use vuk::primitive::Primitive;
use vuk::ui_controller::{create_ui_controller, UiController};
use vuk::ui_state::{ItemType, UiMember, UiSelection};

const TEST_AIDL: &str = r#"
        package com.concretepage;
        // Krumpli
        /** Prepare a salad. */
        interface FirstService {
            const int VERSION = 4;
            String getMessage1(String name   );
            String getMessage2(String);
            String getMessage3(String  );
            oneway int getResult(int val1  , Map<String, Vector<int>> val2);
            oneway void useOtherServices(SecondService, ThirdService);
        }

        interface SecondService {
            String getMessage(String name);
            oneway int getResult(int val1, Map<String, Vector<int>> val2);
        }

        interface ThirdService {
            String getMessage(String name);
            oneway int getResult(int val1, Map<String, Vector<int>> val2);
        }"#;

fn model_of(sources: &[&str]) -> Model {
    let files: Vec<ast::File> = sources.iter().map(|s| parse(s).unwrap()).collect();
    create_model(files)
}

fn index_of(model: &Model, key: &str) -> usize {
    model.get_index(&key.to_string()).unwrap()
}

fn interface<'a>(model: &'a Model, key: &str) -> &'a vuk::model::Interface {
    match &model.items[index_of(model, key)] {
        Item::Interface(i) => i,
        _ => panic!("not an interface"),
    }
}

fn standard_name(t: &Type) -> &str {
    match t {
        Type::Standard(s) => &s.name,
        other => panic!("not a built-in type: {:?}", other),
    }
}

#[test]
fn generic_resolution() {
    let model = model_of(&[TEST_AIDL]);
    let first = interface(&model, "com.concretepage.FirstService");
    let method = first.methods.iter().find(|m| m.name == "getResult").unwrap();
    assert!(method.is_one_way);
    assert_eq!(method.args.len(), 2);
    let second = &method.args[1];
    assert_eq!(second.name, "val2");
    assert_eq!(standard_name(&second.arg_type), "Map");
    assert_eq!(second.generic_args.len(), 2);
    assert_eq!(standard_name(&second.generic_args[0].arg_type), "String");
    assert_eq!(standard_name(&second.generic_args[1].arg_type), "Vector");
    assert_eq!(second.generic_args[1].generic_args.len(), 1);
    assert_eq!(standard_name(&second.generic_args[1].generic_args[0].arg_type), "int");
}

#[test]
fn javadoc_extraction() {
    let model = model_of(&[TEST_AIDL]);
    let first = interface(&model, "com.concretepage.FirstService");
    assert_eq!(first.docu, "Prepare a salad.");
    let second = interface(&model, "com.concretepage.SecondService");
    assert_eq!(second.docu, "");
}

#[test]
fn multiline_javadoc_lines_are_joined() {
    let file = parse("package p;\n/**\n * Line one\n *\n * Line two\n */\ninterface A {}").unwrap();
    match &file.items[0] {
        ast::Item::Interface { docu, .. } => assert_eq!(docu, "Line one  Line two"),
        _ => panic!("not an interface"),
    }
}

#[test]
fn cross_file_reference() {
    let a = "package com.first;\nimport com.second;\ninterface FirstService {\n  String getMessage(String name);\n  oneway void useOtherServices(SecondService other);\n}";
    let b = "package com.second;\ninterface SecondService {\n  String getMessage(String name);\n}";
    let model = model_of(&[a, b]);
    let second_index = index_of(&model, "com.second.SecondService");
    let first = interface(&model, "com.first.FirstService");
    let method = &first.methods[1];
    assert_eq!(method.name, "useOtherServices");
    match &method.args[0].arg_type {
        Type::Item(r) => {
            assert_eq!(r.index, second_index);
            assert_eq!(r.name, "SecondService");
        }
        other => panic!("not linked: {:?}", other),
    }
    let references = model.find_references(&model.items[second_index]);
    let first_index = index_of(&model, "com.first.FirstService");
    assert_eq!(references, vec![(vec![method.index], first_index)]);
    assert_eq!(method.index, 1);
}

#[test]
fn unresolved_survivor() {
    let file = parse("package com.x;\ninterface A {\n  void f(Unknown u, int i);\n}").unwrap();
    let mut model = build_model(&vec![file]);
    let warnings = model.resolve_types();
    assert_eq!(warnings, vec!["com.x:Unknown".to_string()]);
    let a = interface(&model, "com.x.A");
    match &a.methods[0].args[0].arg_type {
        Type::Unresolved(u) => {
            assert_eq!(u.name, "Unknown");
            assert_eq!(u.owner.path, "com.x");
        }
        other => panic!("should stay unresolved: {:?}", other),
    }
    assert_eq!(standard_name(&a.methods[0].args[1].arg_type), "int");
}

#[test]
fn ordinals_run_over_consts_then_methods() {
    let model = model_of(&[
        "package p;\ninterface A {\n  void m1();\n  const int C1 = 1;\n  void m2();\n  const String C2 = \"x\";\n}",
    ]);
    let a = interface(&model, "p.A");
    let consts: Vec<usize> = a.consts.iter().map(|c| c.index).collect();
    let methods: Vec<usize> = a.methods.iter().map(|m| m.index).collect();
    assert_eq!(consts, vec![0, 1]);
    assert_eq!(methods, vec![2, 3]);
}

#[test]
fn duplicate_key_last_one_wins() {
    let model = model_of(&[
        "package p;\n/** first */\ninterface A {}",
        "package p;\n/** second */\ninterface A {}\nparcelable B { int x; }",
    ]);
    assert_eq!(model.items.len(), 2);
    assert_eq!(interface(&model, "p.A").docu, "second");
    let keys: Vec<String> = model.items.iter().map(|i| i.get_key()).collect();
    assert_eq!(keys, vec!["p.A".to_string(), "p.B".to_string()]);
}

#[test]
fn linking_twice_changes_nothing() {
    let mut model = model_of(&[TEST_AIDL, "package q;\nparcelable P { Missing m; List<int> l; }"]);
    let before = format!("{:?}", model);
    let warnings = model.resolve_types();
    assert_eq!(warnings, vec!["q:Missing".to_string()]);
    assert_eq!(format!("{:?}", model), before);
}

#[test]
fn primitive_wins_over_declared_symbol() {
    let model = model_of(&["package p;\nparcelable String { int x; }\ninterface A { String get(); }"]);
    let a = interface(&model, "p.A");
    assert_eq!(standard_name(&a.methods[0].return_arg.arg_type), "String");
}

#[test]
fn same_package_reference_resolves() {
    let model = model_of(&["package p;\nparcelable S { int x; }\ninterface A { S get(); }"]);
    let a = interface(&model, "p.A");
    match &a.methods[0].return_arg.arg_type {
        Type::Item(r) => assert_eq!(r.index, index_of(&model, "p.S")),
        other => panic!("not linked: {:?}", other),
    }
}

#[test]
fn mutual_dependency_is_reported_once() {
    let model = model_of(&[
        "package p;\ninterface A { void f(B b); void g(B b, List<B> bs); }\ninterface B { void h(A a); }",
    ]);
    let a = index_of(&model, "p.A");
    let b = index_of(&model, "p.B");
    let deps = model.find_dependencies(&model.items[a]);
    assert_eq!(deps, vec![(vec![0, 1], b)]);
    let deps = model.find_dependencies(&model.items[b]);
    assert_eq!(deps, vec![(vec![0], a)]);
    let refs = model.find_references(&model.items[a]);
    assert_eq!(refs, vec![(vec![0], b)]);
    let refs = model.find_references(&model.items[b]);
    assert_eq!(refs, vec![(vec![0, 1], a)]);
}

#[test]
fn struct_members_depend_through_generics() {
    let model = model_of(&["package p;\nparcelable S { int x; }\nparcelable T { int a; Map<String, S> m; S[] list; }"]);
    let s = index_of(&model, "p.S");
    let t = index_of(&model, "p.T");
    assert_eq!(model.find_dependencies(&model.items[t]), vec![(vec![1, 2], s)]);
    assert_eq!(model.find_dependencies(&model.items[s]), vec![]);
}

#[test]
fn enum_has_no_dependencies() {
    let model = model_of(&["package p;\nenum E { A = 1, B = \"two\", C, }"]);
    let e = index_of(&model, "p.E");
    assert_eq!(model.find_dependencies(&model.items[e]), vec![]);
    match &model.items[e] {
        Item::Enum(en) => {
            let values: Vec<(&str, &str, usize)> =
                en.elements.iter().map(|x| (x.name.as_str(), x.value.as_str(), x.index)).collect();
            assert_eq!(values, vec![("A", "1", 0), ("B", "two", 1), ("C", "", 2)]);
        }
        _ => panic!("not an enum"),
    }
}

#[test]
fn lookup_miss_is_not_found() {
    let model = model_of(&[TEST_AIDL]);
    let controller = UiController::new(model);
    match controller.get_dependencies(&"com.concretepage.Nothing".to_string()) {
        Err(Error::NotFound(k)) => assert_eq!(k, "com.concretepage.Nothing"),
        _ => panic!("expected NotFound"),
    }
    assert!(controller.get_references(&"x.Y".to_string()).is_err());
    assert!(controller.create_node(&"x.Y".to_string()).is_none());
}

#[test]
fn controller_edges() {
    let model = model_of(&[TEST_AIDL]);
    let controller = UiController::new(model);
    let edges = controller.get_dependencies(&"com.concretepage.FirstService".to_string()).unwrap();
    let mut names: Vec<(String, Vec<usize>)> =
        edges.iter().map(|e| (e.to.item.name.clone(), e.from_indices.clone())).collect();
    names.sort();
    assert_eq!(
        names,
        vec![("SecondService".to_string(), vec![5]), ("ThirdService".to_string(), vec![5])]
    );
    let refs = controller.get_references(&"com.concretepage.ThirdService".to_string()).unwrap();
    assert_eq!(refs.len(), 1);
    assert_eq!(refs[0].to.item.name, "FirstService");
    assert_eq!(refs[0].from_indices, vec![5]);
    let node = controller.create_node(&"com.concretepage.FirstService".to_string()).unwrap();
    assert_eq!(node.item.members.len(), 6);
    assert_eq!(node.item.members[0].text, "const VERSION: int = 4");
    assert_eq!(node.item.members[1].text, "getMessage1 (String) -> String");
    assert_eq!(node.item.members[5].text, "useOtherServices (SecondService, ThirdService)");
}

#[test]
fn selection_orders() {
    let model = model_of(&[
        "package b;\nenum E { X }\nparcelable P { int x; }\ninterface Z {}\ninterface A {}",
        "package a;\ninterface M {}",
    ]);
    let controller = UiController::new(model);
    let listed: Vec<(ItemType, String)> =
        controller.selection.items.iter().map(|i| (i.item_type, i.name.clone())).collect();
    assert_eq!(
        listed,
        vec![
            (ItemType::Interface, "A".to_string()),
            (ItemType::Interface, "M".to_string()),
            (ItemType::Interface, "Z".to_string()),
            (ItemType::Struct, "P".to_string()),
            (ItemType::Enum, "E".to_string()),
        ]
    );
    assert_eq!(controller.selection.current, -1);
    let by_package = UiSelection::new_with_model_items(&controller.model.items);
    let paths: Vec<String> = by_package.items.iter().map(|i| i.pkg_path.clone()).collect();
    assert_eq!(paths, vec!["a", "b", "b", "b", "b"]);
    assert_eq!(by_package.items[0].key, "a.M");
}

#[test]
fn member_texts() {
    let model = model_of(&["package p;\nparcelable S { int count; }\nenum E { ONE }"]);
    match &model.items[index_of(&model, "p.S")] {
        Item::Struct(s) => {
            let m = UiMember::new_from_model_member(&s.members[0]);
            assert_eq!(m.text, "count: int");
            assert_eq!(m.index, 0);
        }
        _ => panic!("not a struct"),
    }
    match &model.items[index_of(&model, "p.E")] {
        Item::Enum(e) => assert_eq!(UiMember::new_from_enum_element(&e.elements[0]).text, "ONE"),
        _ => panic!("not an enum"),
    }
}

#[test]
fn keys_and_names() {
    let model = model_of(&["package com.x;\ninterface A { void f(Unknown u); }"]);
    let a = &model.items[0];
    assert_eq!(a.get_key(), "com.x.A");
    assert_eq!(a.get_name(), "A");
    assert_eq!(a.get_pkg().path, "com.x");
    let pkg = Package::new("com.y");
    assert_eq!(pkg.get_key(), "com.y");
    match a {
        Item::Interface(i) => {
            assert_eq!(i.methods[0].args[0].arg_type.get_key(), "com.x:Unknown");
            assert!(i.methods[0].return_arg.arg_type.is_void());
            assert_eq!(i.methods[0].return_arg.arg_type.get_key(), "void");
        }
        _ => panic!("not an interface"),
    }
}

#[test]
fn primitive_names() {
    assert_eq!(Primitive::Bool.get_name(), "boolean");
    assert_eq!(Primitive::ByteArray.get_name(), "byte[]");
    assert_eq!(Primitive::MapType.get_name(), "Map");
    assert_eq!(Primitive::all().len(), 20);
}

#[test]
fn syntax_error_location() {
    let err = parse("package p;\n\ninterface A {\n  void f();\n  ???;\n}").unwrap_err();
    assert_eq!(err.line_number, 5);
    assert_eq!(err.column_number, 3);
    assert_eq!(err.section, "???");
    let err = parse("package p;\nwhat is this text that goes on and on and on").unwrap_err();
    assert_eq!(err.line_number, 2);
    assert_eq!(err.column_number, 1);
    assert_eq!(err.section, "what is this text that goes...");
    assert!(parse("interface A {}").is_err());
}

#[test]
fn imports_and_forward_declarations() {
    let file = parse("// head\npackage a.b;\nimport c.d;\ninterface Fwd;\nimport e;\n/** doc */ parcelable P { int x = 3; }").unwrap();
    assert_eq!(file.package, "a.b");
    assert_eq!(file.imports, vec!["c.d".to_string(), "e".to_string()]);
    assert_eq!(file.items.len(), 1);
    match &file.items[0] {
        ast::Item::Parcelable { name, docu, .. } => {
            assert_eq!(name, "P");
            assert_eq!(docu, "doc");
        }
        _ => panic!("not a parcelable"),
    }
}

#[test]
fn controller_from_source_text() {
    let controller = create_ui_controller(TEST_AIDL).unwrap();
    let names: Vec<String> = controller.selection.items.iter().map(|i| i.name.clone()).collect();
    assert_eq!(names, vec!["FirstService", "SecondService", "ThirdService"]);
    let err = create_ui_controller("package p;\ninterface {}").err().unwrap();
    assert_eq!(err.line_number, 2);
    assert_eq!(err.column_number, 11);
    assert_eq!(err.section, "{}");
}

#[test]
fn empty_enum_body_is_valid() {
    let file = parse("package p;\nenum E {}\nenum F { , }\n").unwrap();
    assert_eq!(
        file.items,
        vec![
            ast::Item::Enum { name: "E".to_string(), docu: String::new(), elements: vec![], annotations: vec![] },
            ast::Item::Enum { name: "F".to_string(), docu: String::new(), elements: vec![], annotations: vec![] },
        ]
    );
}

#[test]
fn warnings_come_with_the_model() {
    let files = vec![parse("package p;\nparcelable S { Unknown u; int i; }").unwrap()];
    let (model, warnings) = create_model_with_warnings(files);
    assert_eq!(warnings, vec!["p:Unknown".to_string()]);
    assert_eq!(model.items.len(), 1);
}

#[test]
fn one_edge_per_dependency_and_referrer() {
    let controller = create_ui_controller(
        "package p;\ninterface A { void f(B b, B c); void g(List<B> bs); }\ninterface B { void h(A a); }",
    )
    .unwrap();
    let deps = controller.get_dependencies(&"p.A".to_string()).unwrap();
    assert_eq!(deps.len(), 1);
    assert_eq!(deps[0].to.item.key, "p.B");
    let mut indices = deps[0].from_indices.clone();
    indices.sort();
    assert_eq!(indices, vec![0, 1]);
    let refs = controller.get_references(&"p.B".to_string()).unwrap();
    assert_eq!(refs.len(), 1);
    assert_eq!(refs[0].to.item.key, "p.A");
}
