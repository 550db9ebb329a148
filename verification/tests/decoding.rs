use rustdoc_signatures::decode::{DecodeError, decode_function_sig, decode_type};
use rustdoc_signatures::json::{Json, json_to_string};
use rustdoc_signatures::rustdoc_json::{decode_doc, decode_index, decode_item,
    item_to_signature_string};
use rustdoc_signatures::signature_builder::{function_sig_to_string, type_to_string};

fn obj(pairs: Vec<(&str, Json)>) -> Json {
    Json::Obj(pairs.into_iter().map(|(k, v)| (k.to_string(), v)).collect())
}

fn s(text: &str) -> Json {
    Json::Str(text.to_string())
}

fn primitive_json(name: &str) -> Json {
    obj(vec![("primitive", s(name))])
}

fn decode_and_render(j: &Json) -> String {
    type_to_string(&decode_type(j).expect("decode should succeed"))
}

#[test]
fn decodes_primitive() {
    assert_eq!(decode_and_render(&primitive_json("u32")), "u32");
}

#[test]
fn decodes_mutable_reference_with_lifetime() {
    let j = obj(vec![(
        "borrowed_ref",
        obj(vec![
            ("is_mutable", Json::Bool(true)),
            ("lifetime", s("'a")),
            ("type", primitive_json("str")),
        ]),
    )]);
    assert_eq!(decode_and_render(&j), "&mut 'a str");
}

#[test]
fn decodes_reference_with_null_lifetime() {
    let j = obj(vec![(
        "borrowed_ref",
        obj(vec![
            ("is_mutable", Json::Bool(false)),
            ("lifetime", Json::Null),
            ("type", primitive_json("u8")),
        ]),
    )]);
    assert_eq!(decode_and_render(&j), "&u8");
}

#[test]
fn decodes_parameterized_path() {
    let j = obj(vec![(
        "resolved_path",
        obj(vec![
            ("name", s("Vec")),
            (
                "args",
                obj(vec![(
                    "angle_bracketed",
                    obj(vec![(
                        "args",
                        Json::Arr(vec![obj(vec![("type", primitive_json("u8"))])]),
                    )]),
                )]),
            ),
        ]),
    )]);
    assert_eq!(decode_and_render(&j), "Vec<u8>");
}

#[test]
fn decodes_path_with_null_args() {
    let j = obj(vec![("resolved_path", obj(vec![("name", s("String")), ("args", Json::Null)]))]);
    assert_eq!(decode_and_render(&j), "String");
}

#[test]
fn decodes_path_with_empty_angle_bracketed_args() {
    let j = obj(vec![(
        "resolved_path",
        obj(vec![
            ("name", s("Vec")),
            ("args", obj(vec![("angle_bracketed", obj(vec![("args", Json::Arr(vec![]))]))])),
        ]),
    )]);
    assert_eq!(decode_and_render(&j), "Vec");
}

#[test]
fn decodes_path_with_constraints() {
    let j = obj(vec![(
        "resolved_path",
        obj(vec![
            ("name", s("Iter")),
            (
                "args",
                obj(vec![(
                    "angle_bracketed",
                    obj(vec![
                        ("args", Json::Arr(vec![obj(vec![("type", primitive_json("u8"))])])),
                        ("constraints", Json::Arr(vec![s("Sized")])),
                    ]),
                )]),
            ),
        ]),
    )]);
    assert_eq!(decode_and_render(&j), "Iter<u8>");
}

#[test]
fn decodes_generic_placeholder() {
    let j = obj(vec![("generic", s("T"))]);
    assert_eq!(decode_and_render(&j), "T");
}

#[test]
fn decodes_tuple() {
    let j = obj(vec![("tuple", Json::Arr(vec![primitive_json("i32"), obj(vec![("generic", s("T"))])]))]);
    assert_eq!(decode_and_render(&j), "(i32, T)");
}

#[test]
fn decodes_slice() {
    let j = obj(vec![("slice", primitive_json("u8"))]);
    assert_eq!(decode_and_render(&j), "[u8]");
}

#[test]
fn unrecognized_shape_falls_back_to_opaque() {
    let j = obj(vec![(
        "raw_pointer",
        obj(vec![("is_mutable", Json::Bool(false)), ("type", primitive_json("i32"))]),
    )]);
    assert_eq!(
        decode_and_render(&j),
        "/* unknown: {\"raw_pointer\":{\"is_mutable\":false,\"type\":{\"primitive\":\"i32\"}}} */"
    );
}

#[test]
fn non_object_value_falls_back_to_opaque() {
    assert_eq!(decode_and_render(&s("odd")), "/* unknown: \"odd\" */");
    assert_eq!(decode_and_render(&Json::Num("42".to_string())), "/* unknown: 42 */");
}

#[test]
fn malformed_leaf_degrades_to_opaque_locally() {
    // The unrecognized element becomes opaque; the surrounding tuple still
    // decodes and renders.
    let j = obj(vec![(
        "tuple",
        Json::Arr(vec![primitive_json("i32"), obj(vec![("qualified_path", Json::Null)])]),
    )]);
    assert_eq!(decode_and_render(&j), "(i32, /* unknown: {\"qualified_path\":null} */)");
}

#[test]
fn decoder_prefers_borrowed_ref_over_resolved_path() {
    let j = obj(vec![
        (
            "borrowed_ref",
            obj(vec![("is_mutable", Json::Bool(false)), ("type", primitive_json("u8"))]),
        ),
        ("resolved_path", obj(vec![("name", s("Vec"))])),
    ]);
    assert_eq!(decode_and_render(&j), "&u8");
}

#[test]
fn decoder_prefers_resolved_path_over_generic() {
    let j = obj(vec![
        ("generic", s("T")),
        ("resolved_path", obj(vec![("name", s("Vec"))])),
    ]);
    assert_eq!(decode_and_render(&j), "Vec");
}

#[test]
fn decoder_prefers_generic_over_primitive() {
    let j = obj(vec![("primitive", s("u32")), ("generic", s("T"))]);
    assert_eq!(decode_and_render(&j), "T");
}

#[test]
fn decoder_prefers_primitive_over_tuple() {
    let j = obj(vec![("tuple", Json::Arr(vec![])), ("primitive", s("u32"))]);
    assert_eq!(decode_and_render(&j), "u32");
}

#[test]
fn decoder_prefers_tuple_over_slice() {
    let j = obj(vec![("slice", primitive_json("u8")), ("tuple", Json::Arr(vec![]))]);
    assert_eq!(decode_and_render(&j), "()");
}

#[test]
fn committed_variant_with_malformed_inside_is_an_error_not_opaque() {
    // The discriminator key is present, so the malformed contents are a
    // hard error even though a later discriminator would also match.
    let j = obj(vec![("borrowed_ref", obj(vec![])), ("generic", s("T"))]);
    assert_eq!(decode_type(&j).unwrap_err(), DecodeError::MalformedBorrowedRef);
}

#[test]
fn missing_reference_type_is_an_error() {
    let j = obj(vec![("borrowed_ref", obj(vec![("is_mutable", Json::Bool(true))]))]);
    assert_eq!(decode_type(&j).unwrap_err(), DecodeError::MalformedBorrowedRef);
}

#[test]
fn malformed_resolved_path_is_an_error() {
    let j = obj(vec![("resolved_path", obj(vec![("name", Json::Bool(true))]))]);
    assert_eq!(decode_type(&j).unwrap_err(), DecodeError::MalformedResolvedPath);
}

#[test]
fn non_angle_bracketed_args_are_an_error() {
    let j = obj(vec![(
        "resolved_path",
        obj(vec![("name", s("Fn")), ("args", obj(vec![("parenthesized", obj(vec![]))]))]),
    )]);
    assert_eq!(decode_type(&j).unwrap_err(), DecodeError::MalformedResolvedPath);
}

#[test]
fn non_string_generic_is_an_error() {
    let j = obj(vec![("generic", Json::Num("5".to_string()))]);
    assert_eq!(decode_type(&j).unwrap_err(), DecodeError::MalformedGeneric);
}

#[test]
fn non_string_primitive_is_an_error() {
    let j = obj(vec![("primitive", Json::Null)]);
    assert_eq!(decode_type(&j).unwrap_err(), DecodeError::MalformedPrimitive);
}

#[test]
fn non_array_tuple_is_an_error() {
    let j = obj(vec![("tuple", obj(vec![]))]);
    assert_eq!(decode_type(&j).unwrap_err(), DecodeError::MalformedTuple);
}

#[test]
fn nested_error_propagates_out_of_slice() {
    let j = obj(vec![("slice", obj(vec![("generic", Json::Null)]))]);
    assert_eq!(decode_type(&j).unwrap_err(), DecodeError::MalformedGeneric);
}

#[test]
fn decodes_full_signature() {
    let j = obj(vec![
        (
            "inputs",
            Json::Arr(vec![Json::Arr(vec![s("path"), primitive_json("str")])]),
        ),
        ("output", obj(vec![("tuple", Json::Arr(vec![]))])),
        ("is_c_variadic", Json::Bool(false)),
    ]);
    let sig = decode_function_sig(&j).expect("signature should decode");
    assert_eq!(function_sig_to_string("load", &sig), "fn load(path: str)");
}

#[test]
fn signature_without_inputs_member_is_an_error() {
    let j = obj(vec![("output", primitive_json("u8"))]);
    assert_eq!(decode_function_sig(&j).unwrap_err(), DecodeError::MalformedSignature);
}

#[test]
fn signature_with_malformed_parameter_entry_is_an_error() {
    let j = obj(vec![("inputs", Json::Arr(vec![Json::Arr(vec![s("lonely")])]))]);
    assert_eq!(decode_function_sig(&j).unwrap_err(), DecodeError::MalformedSignature);
}

#[test]
fn signature_accepts_is_variadic_spelling() {
    let j = obj(vec![("inputs", Json::Arr(vec![])), ("is_variadic", Json::Bool(true))]);
    let sig = decode_function_sig(&j).expect("signature should decode");
    assert!(sig.is_c_variadic);
}

#[test]
fn signature_variadic_defaults_to_false() {
    let j = obj(vec![("inputs", Json::Arr(vec![]))]);
    let sig = decode_function_sig(&j).expect("signature should decode");
    assert!(!sig.is_c_variadic);
}

#[test]
fn decodes_function_item_and_renders_line() {
    let j = obj(vec![
        ("name", s("load")),
        (
            "inner",
            obj(vec![(
                "function",
                obj(vec![(
                    "sig",
                    obj(vec![(
                        "inputs",
                        Json::Arr(vec![Json::Arr(vec![s("path"), primitive_json("str")])]),
                    )]),
                )]),
            )]),
        ),
    ]);
    let item = decode_item(&j).expect("item should decode");
    assert_eq!(item_to_signature_string(&item), Some("fn load(path: str)".to_string()));
}

#[test]
fn nameless_function_item_renders_as_unknown() {
    let j = obj(vec![
        ("name", Json::Null),
        (
            "inner",
            obj(vec![(
                "function",
                obj(vec![("sig", obj(vec![("inputs", Json::Arr(vec![]))]))]),
            )]),
        ),
    ]);
    let item = decode_item(&j).expect("item should decode");
    assert_eq!(item_to_signature_string(&item), Some("fn unknown()".to_string()));
}

#[test]
fn non_function_item_renders_nothing() {
    let j = obj(vec![("name", s("Widget")), ("inner", obj(vec![]))]);
    let item = decode_item(&j).expect("item should decode");
    assert_eq!(item_to_signature_string(&item), None);
}

#[test]
fn item_without_inner_is_an_error() {
    let j = obj(vec![("name", s("orphan"))]);
    assert_eq!(decode_item(&j).unwrap_err(), DecodeError::MalformedItem);
}

#[test]
fn item_docs_are_kept() {
    let j = obj(vec![("name", s("x")), ("docs", s("notes")), ("inner", obj(vec![]))]);
    let item = decode_item(&j).expect("item should decode");
    assert_eq!(item.docs, Some("notes".to_string()));
}

#[test]
fn decodes_index_in_member_order() {
    let doc = obj(vec![(
        "index",
        obj(vec![
            (
                "0:1",
                obj(vec![
                    ("name", s("first")),
                    (
                        "inner",
                        obj(vec![(
                            "function",
                            obj(vec![("sig", obj(vec![("inputs", Json::Arr(vec![]))]))]),
                        )]),
                    ),
                ]),
            ),
            ("0:2", obj(vec![("name", s("second")), ("inner", obj(vec![]))])),
        ]),
    )]);
    let entries = decode_index(&doc).expect("index should decode");
    assert_eq!(entries.len(), 2);
    assert_eq!(entries[0].0, "0:1");
    assert_eq!(entries[1].0, "0:2");
    assert_eq!(
        item_to_signature_string(&entries[0].1),
        Some("fn first()".to_string())
    );
    assert_eq!(item_to_signature_string(&entries[1].1), None);
}

#[test]
fn document_without_index_is_an_error() {
    let doc = obj(vec![("paths", obj(vec![]))]);
    assert_eq!(decode_index(&doc).unwrap_err(), DecodeError::MalformedDocument);
    assert!(decode_doc(&doc).is_err());
}

#[test]
fn decodes_whole_document() {
    let doc = obj(vec![(
        "index",
        obj(vec![("0:1", obj(vec![("name", s("only")), ("inner", obj(vec![]))]))]),
    )]);
    let parsed = decode_doc(&doc).expect("document should decode");
    assert_eq!(parsed.index.len(), 1);
    assert!(parsed.index.contains_key("0:1"));
}

#[test]
fn json_rendering_escapes_strings() {
    let j = Json::Obj(vec![(
        "text\n".to_string(),
        Json::Str("say \"hi\" \\ there\tnow\u{1}".to_string()),
    )]);
    assert_eq!(
        json_to_string(&j),
        "{\"text\\n\":\"say \\\"hi\\\" \\\\ there\\tnow\\u0001\"}"
    );
}

#[test]
fn json_rendering_keeps_number_text_and_structure() {
    let j = Json::Arr(vec![
        Json::Num("3.25".to_string()),
        Json::Null,
        Json::Bool(true),
        Json::Arr(vec![]),
        Json::Obj(vec![]),
    ]);
    assert_eq!(json_to_string(&j), "[3.25,null,true,[],{}]");
}
