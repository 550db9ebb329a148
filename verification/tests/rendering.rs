use rustdoc_signatures::json::Json;
use rustdoc_signatures::signature_builder::{
    AngleBracketedArgs, BorrowedRefType, FunctionSig, GenericArg, GenericArgs, ResolvedPath, Type,
    function_sig_to_string, generic_args_to_string, type_to_string,
};

fn primitive(name: &str) -> Type {
    Type::Primitive { primitive: name.to_string() }
}

fn generic(name: &str) -> Type {
    Type::Generic { generic: name.to_string() }
}

fn path(name: &str, args: Option<GenericArgs>) -> Type {
    Type::ResolvedPath { resolved_path: ResolvedPath { name: name.to_string(), args } }
}

fn angle(args: Vec<Type>) -> GenericArgs {
    GenericArgs::AngleBracketed {
        angle_bracketed: AngleBracketedArgs {
            args: args.into_iter().map(|t| GenericArg::Type(Box::new(t))).collect(),
            constraints: Vec::new(),
        },
    }
}

#[test]
fn renders_primitive() {
    assert_eq!(type_to_string(&primitive("u32")), "u32");
}

#[test]
fn renders_generic_placeholder() {
    assert_eq!(type_to_string(&generic("T")), "T");
    assert_eq!(type_to_string(&generic("Self")), "Self");
}

#[test]
fn renders_mutable_reference_with_lifetime() {
    let t = Type::BorrowedRef {
        borrowed_ref: BorrowedRefType {
            is_mutable: true,
            lifetime: Some("'a".to_string()),
            inner_type: Box::new(primitive("str")),
        },
    };
    assert_eq!(type_to_string(&t), "&mut 'a str");
}

#[test]
fn renders_plain_reference() {
    let t = Type::BorrowedRef {
        borrowed_ref: BorrowedRefType {
            is_mutable: false,
            lifetime: None,
            inner_type: Box::new(primitive("u8")),
        },
    };
    assert_eq!(type_to_string(&t), "&u8");
}

#[test]
fn renders_parameterized_path() {
    let t = path("Vec", Some(angle(vec![primitive("u8")])));
    assert_eq!(type_to_string(&t), "Vec<u8>");
}

#[test]
fn renders_path_with_two_arguments() {
    let t = path("Result", Some(angle(vec![generic("T"), path("IoError", None)])));
    assert_eq!(type_to_string(&t), "Result<T, IoError>");
}

#[test]
fn path_without_arguments_has_no_brackets() {
    assert_eq!(type_to_string(&path("String", None)), "String");
}

#[test]
fn path_with_empty_argument_list_has_no_brackets() {
    let t = path("Vec", Some(angle(vec![])));
    assert_eq!(type_to_string(&t), "Vec");
    assert_eq!(generic_args_to_string(&angle(vec![])), "");
}

#[test]
fn renders_tuple() {
    let t = Type::Tuple { tuple: vec![primitive("i32"), generic("T")] };
    assert_eq!(type_to_string(&t), "(i32, T)");
}

#[test]
fn renders_empty_tuple_as_unit() {
    let t = Type::Tuple { tuple: vec![] };
    assert_eq!(type_to_string(&t), "()");
}

#[test]
fn renders_slice() {
    let t = Type::Slice { slice: Box::new(generic("T")) };
    assert_eq!(type_to_string(&t), "[T]");
}

#[test]
fn renders_opaque_with_embedded_json() {
    let raw = Json::Obj(vec![(
        "raw_pointer".to_string(),
        Json::Obj(vec![
            ("is_mutable".to_string(), Json::Bool(false)),
            (
                "type".to_string(),
                Json::Obj(vec![("primitive".to_string(), Json::Str("i32".to_string()))]),
            ),
        ]),
    )]);
    let t = Type::Other(raw);
    assert_eq!(
        type_to_string(&t),
        "/* unknown: {\"raw_pointer\":{\"is_mutable\":false,\"type\":{\"primitive\":\"i32\"}}} */"
    );
}

#[test]
fn opaque_marker_appears_verbatim_inside_larger_type() {
    let raw = Json::Str("mystery".to_string());
    let t = Type::Tuple { tuple: vec![primitive("i32"), Type::Other(raw)] };
    let rendered = type_to_string(&t);
    assert_eq!(rendered, "(i32, /* unknown: \"mystery\" */)");
    assert!(rendered.contains("/* unknown: \"mystery\" */"));
}

#[test]
fn rendering_is_deterministic() {
    let t = path("Vec", Some(angle(vec![Type::Tuple { tuple: vec![generic("T")] }])));
    let first = type_to_string(&t);
    let second = type_to_string(&t);
    assert_eq!(first, second);
}

#[test]
fn renders_signature_without_return() {
    let sig = FunctionSig {
        inputs: vec![("path".to_string(), primitive("str"))],
        output: None,
        is_c_variadic: false,
    };
    assert_eq!(function_sig_to_string("load", &sig), "fn load(path: str)");
}

#[test]
fn unit_return_is_suppressed() {
    let sig = FunctionSig {
        inputs: vec![("path".to_string(), primitive("str"))],
        output: Some(Type::Tuple { tuple: vec![] }),
        is_c_variadic: false,
    };
    assert_eq!(function_sig_to_string("load", &sig), "fn load(path: str)");
}

#[test]
fn absent_and_unit_returns_render_identically() {
    let absent = FunctionSig {
        inputs: vec![("a".to_string(), primitive("u8")), ("b".to_string(), generic("T"))],
        output: None,
        is_c_variadic: false,
    };
    let unit = FunctionSig {
        inputs: vec![("a".to_string(), primitive("u8")), ("b".to_string(), generic("T"))],
        output: Some(Type::Tuple { tuple: vec![] }),
        is_c_variadic: false,
    };
    assert_eq!(function_sig_to_string("f", &absent), function_sig_to_string("f", &unit));
}

#[test]
fn renders_signature_with_return_type() {
    let sig = FunctionSig {
        inputs: vec![(
            "path".to_string(),
            Type::BorrowedRef {
                borrowed_ref: BorrowedRefType {
                    is_mutable: false,
                    lifetime: None,
                    inner_type: Box::new(primitive("str")),
                },
            },
        )],
        output: Some(path("Result", Some(angle(vec![generic("Self"), path("IoError", None)])))),
        is_c_variadic: false,
    };
    assert_eq!(
        function_sig_to_string("load_from_file", &sig),
        "fn load_from_file(path: &str) -> Result<Self, IoError>"
    );
}

#[test]
fn renders_signature_with_no_parameters() {
    let sig = FunctionSig { inputs: vec![], output: Some(primitive("u32")), is_c_variadic: false };
    assert_eq!(function_sig_to_string("answer", &sig), "fn answer() -> u32");
}

#[test]
fn variadic_flag_does_not_affect_rendering() {
    let plain = FunctionSig { inputs: vec![], output: None, is_c_variadic: false };
    let variadic = FunctionSig { inputs: vec![], output: None, is_c_variadic: true };
    assert_eq!(function_sig_to_string("f", &plain), function_sig_to_string("f", &variadic));
}

#[test]
fn a_named_unit_path_is_not_suppressed_structurally() {
    // Only a rendering equal to the unit string suppresses the arrow; a
    // path that happens to render as "()" is treated the same way.
    let sig = FunctionSig {
        inputs: vec![],
        output: Some(path("()", None)),
        is_c_variadic: false,
    };
    assert_eq!(function_sig_to_string("f", &sig), "fn f()");
}
