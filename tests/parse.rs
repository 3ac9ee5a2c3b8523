use vuk::ast::{Annotation, Arg, Const, Direction, EnumElement, Item, Member, Method, Type};
use vuk::parse::{
    parse_annotation, parse_arg, parse_comment, parse_const, parse_import, parse_item,
    parse_member, parse_method, parse_package, parse_type,
};

#[test]
fn test_package() {
    let (input, pkg) = parse_package("package x;rest").unwrap();
    assert_eq!(pkg, "x");
    assert_eq!(input, "rest");

    let (input, pkg) = parse_package("package x.y.z;rest").unwrap();
    assert_eq!(pkg, "x.y.z");
    assert_eq!(input, "rest");
}

#[test]
fn test_import() {
    let (input, pkg) = parse_import("import x.y.z;rest").unwrap();
    assert_eq!(pkg, "x.y.z");
    assert_eq!(input, "rest");
}

#[test]
fn test_simple_type() {
    let (input, output_type) = parse_type("TypeName;rest").unwrap();
    assert_eq!(output_type, Type::with_name("TypeName"));
    assert_eq!(input, ";rest");
}

#[test]
fn test_array_type() {
    let (input, output_type) = parse_type("ArrayTypeName [];rest").unwrap();
    assert_eq!(output_type, Type::new("Array", vec![Type::with_name("ArrayTypeName")]));
    assert_eq!(input, ";rest");
}

#[test]
fn test_generic_type() {
    let (input, output_type) = parse_type("TestMap<Key,TestVec<V1, V2>>;rest").unwrap();
    assert_eq!(
        output_type,
        Type {
            name: "TestMap".to_string(),
            generic_types: vec![
                Type::with_name("Key"),
                Type::new("TestVec", vec![Type::with_name("V1"), Type::with_name("V2")])
            ],
        }
    );
    assert_eq!(input, ";rest");
}

#[test]
fn test_arg_with_name() {
    let (input, arg) = parse_arg("TypeName Albert;rest").unwrap();
    assert_eq!(arg, Arg::with_name("Albert", Type::with_name("TypeName")));
    assert_eq!(input, ";rest");
}

#[test]
fn test_arg_with_direction() {
    let (input, arg) = parse_arg("in TypeName;rest").unwrap();
    assert_eq!(arg, Arg::with_direction(Direction::In, "", Type::with_name("TypeName")));
    assert_eq!(input, ";rest");
}

#[test]
fn test_arg_with_direction_and_name() {
    let (input, arg) = parse_arg("inout TypeName<G> Roger;rest").unwrap();
    assert_eq!(
        arg,
        Arg::with_direction(
            Direction::InOut,
            "Roger",
            Type::new("TypeName", vec![Type::with_name("G")])
        )
    );
    assert_eq!(input, ";rest");
}

#[test]
fn test_arg_with_annotations() {
    let (input, arg) = parse_arg(
        r#"@Annotation1
            @Annotation2(AnnotationParam)
            TypeName Albert;rest"#,
    )
    .unwrap();
    assert_eq!(
        arg,
        Arg::new(
            Direction::Unspecified,
            "Albert",
            Type::with_name("TypeName"),
            vec![
                Annotation("Annotation1".to_string()),
                Annotation("Annotation2(AnnotationParam)".to_string())
            ],
        )
    );
    assert_eq!(input, ";rest");
}

#[test]
fn test_num_const() {
    let (input, the_const) = parse_const("const TypeName CONST_NAME = 123;rest").unwrap();
    assert_eq!(
        the_const,
        Const::new("CONST_NAME", Type::with_name("TypeName"), "123", String::new(), Vec::new())
    );
    assert_eq!(input, "rest");
}

#[test]
fn test_string_const() {
    let (input, the_const) =
        parse_const("const TypeName CONST_NAME = \"const_value\";rest").unwrap();
    assert_eq!(
        the_const,
        Const::new(
            "CONST_NAME",
            Type::with_name("TypeName"),
            "const_value",
            String::new(),
            Vec::new(),
        )
    );
    assert_eq!(input, "rest");
}

#[test]
fn test_const_with_javadoc() {
    let (input, the_const) = parse_const(
        r#"
/**
 * Const docu
 */
const TypeName CONST_NAME = 123;rest"#,
    )
    .unwrap();
    assert_eq!(
        the_const,
        Const::new(
            "CONST_NAME",
            Type::with_name("TypeName"),
            "123",
            "Const docu".to_string(),
            Vec::new(),
        )
    );
    assert_eq!(input, "rest");
}

#[test]
fn test_const_with_annotation() {
    let (input, the_const) =
        parse_const("@AnnotationName const TypeName CONST_NAME = 123;rest").unwrap();
    assert_eq!(
        the_const,
        Const::new(
            "CONST_NAME",
            Type::with_name("TypeName"),
            "123",
            String::new(),
            vec![Annotation("AnnotationName".to_string())]
        )
    );
    assert_eq!(input, "rest");
}

#[test]
fn test_member() {
    let (input, member) = parse_member("TypeName memberName;rest").unwrap();
    assert_eq!(
        member,
        Member::new("memberName", Type::with_name("TypeName"), String::new(), Vec::new())
    );
    assert_eq!(input, "rest");
}

#[test]
fn test_member_with_value() {
    let (input, member) = parse_member("TypeName memberName = \"memberValue\";rest").unwrap();
    assert_eq!(
        member,
        Member::new("memberName", Type::with_name("TypeName"), String::new(), Vec::new())
    );
    assert_eq!(input, "rest");
}

#[test]
fn test_member_with_javadoc() {
    let (input, member) = parse_member(
        r#"
/**
 * Member docu
 */
TypeName memberName;rest"#,
    )
    .unwrap();
    assert_eq!(
        member,
        Member::new(
            "memberName",
            Type::with_name("TypeName"),
            "Member docu".to_string(),
            Vec::new(),
        )
    );
    assert_eq!(input, "rest");
}

#[test]
fn test_member_with_annotation() {
    let (input, member) = parse_member("@AnnotationName TypeName memberName;rest").unwrap();
    assert_eq!(
        member,
        Member::new(
            "memberName",
            Type::with_name("TypeName"),
            String::new(),
            vec![Annotation("AnnotationName".to_string())]
        )
    );
    assert_eq!(input, "rest");
}

#[test]
fn test_method_without_arg() {
    let (input, method) = parse_method("TypeName myMethod();rest").unwrap();
    assert_eq!(
        method,
        Method::new(false, "myMethod", Type::with_name("TypeName"), Vec::new(), String::new(), Vec::new())
    );
    assert_eq!(input, "rest");
}

#[test]
fn test_method_with_1_arg() {
    let (input, method) = parse_method("TypeName myMethod(ArgType arg);rest").unwrap();
    assert_eq!(
        method,
        Method::new(
            false,
            "myMethod",
            Type::with_name("TypeName"),
            vec![Arg::with_name("arg", Type::with_name("ArgType"))],
            String::new(),
            Vec::new(),
        )
    );
    assert_eq!(input, "rest");
}

#[test]
fn test_method_with_3_args() {
    let (input, method) =
        parse_method("TypeName myMethod(ArgType1, ArgType2 arg2, ArgType3);rest").unwrap();
    assert_eq!(
        method,
        Method::new(
            false,
            "myMethod",
            Type::with_name("TypeName"),
            vec![
                Arg::unnamed(Type::with_name("ArgType1")),
                Arg::with_name("arg2", Type::with_name("ArgType2")),
                Arg::unnamed(Type::with_name("ArgType3"))
            ],
            String::new(),
            Vec::new(),
        )
    );
    assert_eq!(input, "rest");
}

#[test]
fn test_oneway_method() {
    let (input, method) = parse_method("oneway void myMethod();rest").unwrap();
    assert_eq!(
        method,
        Method::new(true, "myMethod", Type::with_name("void"), Vec::new(), String::new(), Vec::new())
    );
    assert_eq!(input, "rest");
}

#[test]
fn test_method_with_value() {
    let (input, method) = parse_method("void myMethod() = 123;rest").unwrap();
    assert_eq!(
        method,
        Method::new(false, "myMethod", Type::with_name("void"), Vec::new(), String::new(), Vec::new())
    );
    assert_eq!(input, "rest");
}

#[test]
fn test_method_with_javadoc() {
    let (input, method) = parse_method(
        r#"
/**
 * Method docu
 */
void myMethod() = 123;rest"#,
    )
    .unwrap();
    assert_eq!(
        method,
        Method::new(
            false,
            "myMethod",
            Type::with_name("void"),
            Vec::new(),
            "Method docu".to_string(),
            Vec::new(),
        )
    );
    assert_eq!(input, "rest");
}

#[test]
fn test_method_withannotation() {
    let (input, method) = parse_method("@AnnotationName TypeName myMethod();rest").unwrap();
    assert_eq!(
        method,
        Method::new(
            false,
            "myMethod",
            Type::with_name("TypeName"),
            Vec::new(),
            String::new(),
            vec![Annotation("AnnotationName".to_string())]
        )
    );
    assert_eq!(input, "rest");
}

#[test]
fn test_eol_comment() {
    let (input, first) = parse_comment("// first comment\n// second comment\nrest").unwrap();
    assert_eq!(first, "first comment");
    let (input, second) = parse_comment(&input).unwrap();
    assert_eq!(vec![first, second], vec!["first comment", "second comment"]);
    assert_eq!(input, "rest");
}

#[test]
fn test_multiline_comment() {
    let (input, comment) = parse_comment("/* this is a multi\nline comment*/rest").unwrap();
    assert_eq!(comment, "this is a multi\nline comment");
    assert_eq!(input, "rest");
}

#[test]
fn test_annotation() {
    let (input, annotation) = parse_annotation("@AnnotationName;rest").unwrap();
    assert_eq!(annotation, Annotation("AnnotationName".to_string()));
    assert_eq!(input, ";rest");

    let (input, annotation) = parse_annotation("@AnnotationName(Hello=\"World\");rest").unwrap();
    assert_eq!(annotation, Annotation("AnnotationName(Hello=\"World\")".to_string()));
    assert_eq!(input, ";rest");
}

#[test]
fn test_interface() {
    let (input, interface) = parse_item(
        r#"
            /**
             * JavaDoc of Potato
             */
            interface Potato {
                /**
                 * const1 docu
                 */
                const int const1 = 1;

                /**
                 * method1 docu
                 */
                String method1();

                const String const2 = "two";
                int method2();
            }rest"#,
    )
    .unwrap();
    assert_eq!(
        interface,
        Item::Interface {
            name: "Potato".to_string(),
            docu: "JavaDoc of Potato".to_string(),
            consts: vec![
                Const::new("const1", Type::with_name("int"), "1", "const1 docu".to_string(), Vec::new()),
                Const::new("const2", Type::with_name("String"), "two", String::new(), Vec::new())
            ],
            methods: vec![
                Method::new(
                    false,
                    "method1",
                    Type::with_name("String"),
                    Vec::new(),
                    "method1 docu".to_string(),
                    Vec::new(),
                ),
                Method::new(false, "method2", Type::with_name("int"), Vec::new(), String::new(), Vec::new()),
            ],
            annotations: Vec::new(),
        }
    );
    assert_eq!(input, "rest");
}

#[test]
fn test_interface_with_annotation() {
    let (_, interface) = parse_item(
        r#"
            @InterfaceAnnotation1
            @InterfaceAnnotation2
            interface Potato {
            }"#,
    )
    .unwrap();
    assert_eq!(
        interface,
        Item::Interface {
            name: "Potato".to_string(),
            docu: String::new(),
            consts: Vec::new(),
            methods: Vec::new(),
            annotations: vec![
                Annotation("InterfaceAnnotation1".to_string()),
                Annotation("InterfaceAnnotation2".to_string())
            ],
        }
    );
}

#[test]
fn test_error_inside_interface() {
    let result = parse_item(
        r#"
            /**
             * JavaDoc of Potato
             */
            interface Potato {
                String method1();
                completely_unexpected;
                int method2();
            }rest"#,
    );
    match result {
        Err(e) => {
            assert_eq!(e.section, "completely_unexpected");
            assert_eq!(e.line_number, 7);
        }
        Ok(_) => assert!(false),
    }
}

#[test]
fn test_parcelable() {
    let (input, parcelable) = parse_item(
        r#"
            /**
             * JavaDoc of Tomato
             */
            parcelable Tomato {
                /**
                 * member1 docu
                 */
                int member1;

                String member2; // inline comment
            }rest"#,
    )
    .unwrap();
    assert_eq!(
        parcelable,
        Item::Parcelable {
            name: "Tomato".to_string(),
            docu: "JavaDoc of Tomato".to_string(),
            members: vec![
                Member::new("member1", Type::with_name("int"), "member1 docu".to_string(), Vec::new()),
                Member::new("member2", Type::with_name("String"), String::new(), Vec::new())
            ],
            annotations: Vec::new(),
        }
    );
    assert_eq!(input, "rest");
}

#[test]
fn test_enum() {
    let (input, enumeration) = parse_item(
        r#"
            /**
             * JavaDoc of Paprika
             */
            enum Paprika {
                /**
                 * element1 docu
                 */
                ELEMENT1 = 3,

                ELEMENT2 = "quattro",
                ELEMENT3
            }rest"#,
    )
    .unwrap();
    assert_eq!(
        enumeration,
        Item::Enum {
            name: "Paprika".to_string(),
            docu: "JavaDoc of Paprika".to_string(),
            elements: vec![
                EnumElement {
                    name: "ELEMENT1".to_string(),
                    docu: "element1 docu".to_string(),
                    value: "3".to_string(),
                },
                EnumElement {
                    name: "ELEMENT2".to_string(),
                    docu: String::new(),
                    value: "quattro".to_string(),
                },
                EnumElement {
                    name: "ELEMENT3".to_string(),
                    docu: String::new(),
                    value: String::new(),
                },
            ],
            annotations: Vec::new(),
        }
    );
    assert_eq!(input, "rest");
}

#[test]
fn identifier_and_its_end() {
    let inp = vuk::lexer::Input::new("abc_1.x rest");
    let (name, end) = vuk::parse::identifier(&inp, 0).unwrap();
    assert_eq!(name, "abc_1");
    assert_eq!(end, 5);
    assert!(vuk::parse::identifier(&inp, 5).is_none());
    let inp = vuk::lexer::Input::new("9lives");
    assert!(vuk::parse::identifier(&inp, 0).is_none());
}

#[test]
fn missing_declaration_name_is_reported_where_expected() {
    let err = parse_item("parcelable { int x; }").unwrap_err();
    assert_eq!(err.line_number, 1);
    assert_eq!(err.column_number, 12);
    assert_eq!(err.section, "{ int x; }");
}

#[test]
fn comments_between_tokens_are_skipped() {
    let (rest, t) = parse_type("Map /* k */ < String , /* v */ List<int> >;").unwrap();
    assert_eq!(
        t,
        Type::new("Map", vec![Type::with_name("String"), Type::new("List", vec![Type::with_name("int")])])
    );
    assert_eq!(rest, ";");
}
