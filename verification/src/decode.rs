//! The explicit, precedence-ordered decoder from a JSON value to a type
//! expression or a function signature.
//!
//! The source format is untagged: variants are told apart structurally. The
//! decoder therefore tries the discriminator keys in the fixed order
//! `borrowed_ref`, `resolved_path`, `generic`, `primitive`, `tuple`,
//! `slice`, commits to the first key that is present, and falls back to the
//! opaque variant only when none of them is. A value whose discriminator
//! key is present but whose inner shape is malformed is a hard decode
//! error, never an opaque fallback.
use vstd::prelude::*;
use crate::json::{Json, JsonV, json_get, json_has_key, json_obj_get, json_size, items_size,
    lemma_item_size, lemma_json_get_size, lemma_jsons_view_index, jsons_view};
use crate::signature_builder::{Type, TypeV, AngleArgsV, FunctionSig, FunctionSigV, GenericArg,
    GenericArgs, AngleBracketedArgs, BorrowedRefType, ResolvedPath, types_view, garg_view,
    garg_list_view, strings_view, params_view};

verus! {

/// Why a decode failed: the named variant's discriminator key was present,
/// or the signature or item envelope was recognized, but the inner shape
/// was not the required one.
#[derive(Clone, Copy, PartialEq, Eq, Structural, Debug)]
pub enum DecodeError {
    MalformedBorrowedRef,
    MalformedResolvedPath,
    MalformedGeneric,
    MalformedPrimitive,
    MalformedTuple,
    MalformedSignature,
    MalformedItem,
    MalformedDocument,
}

/// The summed sizes of a sequence split off at the front.
pub proof fn lemma_items_size_drop_first(items: Seq<JsonV>)
    requires
        items.len() > 0,
    ensures
        items_size(items) == json_size(items[0]) + items_size(items.drop_first()),
    decreases items.len(),
{
    if items.len() == 1 {
        assert(items.drop_first() =~= Seq::empty());
        assert(items.drop_last() =~= Seq::empty());
    } else {
        lemma_items_size_drop_first(items.drop_last());
        assert(items.drop_last()[0] == items[0]);
        assert(items.drop_first().drop_last() =~= items.drop_last().drop_first());
        assert(items.drop_first().last() == items.last());
    }
}

/// Every JSON value has at least one node.
pub proof fn lemma_json_size_pos(j: JsonV)
    ensures
        json_size(j) >= 1,
{
}

/// The decoded optional lifetime of a reference: absent or null means no
/// lifetime, a string is the lifetime text, anything else is malformed.
pub open spec fn decode_lifetime_v(b: JsonV) -> Result<Option<Seq<char>>, DecodeError> {
    match json_get(b, "lifetime"@) {
        None => Ok(None),
        Some(JsonV::Null) => Ok(None),
        Some(JsonV::Str(s)) => Ok(Some(s)),
        Some(_) => Err(DecodeError::MalformedBorrowedRef),
    }
}

/// The decode of a reference's contents (the value under `borrowed_ref`):
/// `is_mutable` must be a boolean, the lifetime as in
/// [`decode_lifetime_v`], and `type` must be present and decode.
pub open spec fn decode_borrowed_ref_v(b: JsonV) -> Result<TypeV, DecodeError>
    decreases json_size(b), 0int,
    via decode_borrowed_ref_v_dec
{
    match json_get(b, "is_mutable"@) {
        Some(JsonV::Bool(m)) => match decode_lifetime_v(b) {
            Ok(lt) => match json_get(b, "type"@) {
                Some(t) => match decode_type_v(t) {
                    Ok(inner) => Ok(
                        TypeV::BorrowedRef { is_mutable: m, lifetime: lt, inner: Box::new(inner) },
                    ),
                    Err(e) => Err(e),
                },
                None => Err(DecodeError::MalformedBorrowedRef),
            },
            Err(e) => Err(e),
        },
        _ => Err(DecodeError::MalformedBorrowedRef),
    }
}

#[via_fn]
proof fn decode_borrowed_ref_v_dec(b: JsonV) {
    if json_get(b, "type"@) is Some {
        lemma_json_get_size(b, "type"@);
    }
}

/// The decode of a resolved path's contents (the value under
/// `resolved_path`): `name` must be a string; `args`, when present and not
/// null, must decode as a generic-argument envelope.
pub open spec fn decode_resolved_path_v(p: JsonV) -> Result<TypeV, DecodeError>
    decreases json_size(p), 0int,
    via decode_resolved_path_v_dec
{
    match json_get(p, "name"@) {
        Some(JsonV::Str(name)) => match json_get(p, "args"@) {
            None => Ok(TypeV::ResolvedPath { name, args: None }),
            Some(JsonV::Null) => Ok(TypeV::ResolvedPath { name, args: None }),
            Some(a) => match decode_generic_args_v(a) {
                Ok(ga) => Ok(TypeV::ResolvedPath { name, args: Some(ga) }),
                Err(e) => Err(e),
            },
        },
        _ => Err(DecodeError::MalformedResolvedPath),
    }
}

#[via_fn]
proof fn decode_resolved_path_v_dec(p: JsonV) {
    if json_get(p, "args"@) is Some {
        lemma_json_get_size(p, "args"@);
    }
}

/// The decode of a generic-argument envelope: only the angle-bracketed
/// style is modeled, its `args` list defaults to empty when absent, and
/// its `constraints` list must hold strings when present.
pub open spec fn decode_generic_args_v(a: JsonV) -> Result<AngleArgsV, DecodeError>
    decreases json_size(a), 0int,
    via decode_generic_args_v_dec
{
    match json_get(a, "angle_bracketed"@) {
        Some(ab) => match (match json_get(ab, "args"@) {
            None => Ok(Seq::<TypeV>::empty()),
            Some(JsonV::Arr(items)) => decode_garg_list_v(items),
            Some(_) => Err(DecodeError::MalformedResolvedPath),
        }) {
            Ok(args) => match (match json_get(ab, "constraints"@) {
                None => Ok(Seq::<Seq<char>>::empty()),
                Some(JsonV::Arr(items)) => decode_string_list_v(items),
                Some(_) => Err(DecodeError::MalformedResolvedPath),
            }) {
                Ok(constraints) => Ok(AngleArgsV { args, constraints }),
                Err(e) => Err(e),
            },
            Err(e) => Err(e),
        },
        None => Err(DecodeError::MalformedResolvedPath),
    }
}

#[via_fn]
proof fn decode_generic_args_v_dec(a: JsonV) {
    if json_get(a, "angle_bracketed"@) is Some {
        lemma_json_get_size(a, "angle_bracketed"@);
        let ab = json_get(a, "angle_bracketed"@)->0;
        if json_get(ab, "args"@) is Some {
            lemma_json_get_size(ab, "args"@);
        }
    }
}

/// The decode of a generic-argument list: each entry must be an object
/// with a `type` member whose value decodes. The leftmost failure wins.
pub open spec fn decode_garg_list_v(items: Seq<JsonV>) -> Result<Seq<TypeV>, DecodeError>
    decreases items_size(items), 1int,
    via decode_garg_list_v_dec
{
    if items.len() == 0 {
        Ok(Seq::empty())
    } else {
        match json_get(items[0], "type"@) {
            Some(t) => match decode_type_v(t) {
                Ok(first) => match decode_garg_list_v(items.drop_first()) {
                    Ok(rest) => Ok(seq![first] + rest),
                    Err(e) => Err(e),
                },
                Err(e) => Err(e),
            },
            None => Err(DecodeError::MalformedResolvedPath),
        }
    }
}

#[via_fn]
proof fn decode_garg_list_v_dec(items: Seq<JsonV>) {
    if items.len() > 0 {
        lemma_items_size_drop_first(items);
        lemma_json_size_pos(items[0]);
        if json_get(items[0], "type"@) is Some {
            lemma_json_get_size(items[0], "type"@);
        }
    }
}

/// The decode of a list of strings; anything that is not a string is
/// malformed.
pub open spec fn decode_string_list_v(items: Seq<JsonV>) -> Result<Seq<Seq<char>>, DecodeError>
    decreases items.len(),
{
    if items.len() == 0 {
        Ok(Seq::empty())
    } else {
        match items[0] {
            JsonV::Str(s) => match decode_string_list_v(items.drop_first()) {
                Ok(rest) => Ok(seq![s] + rest),
                Err(e) => Err(e),
            },
            _ => Err(DecodeError::MalformedResolvedPath),
        }
    }
}

/// The decode of a list of type expressions. The leftmost failure wins.
pub open spec fn decode_type_list_v(items: Seq<JsonV>) -> Result<Seq<TypeV>, DecodeError>
    decreases items_size(items), 1int,
    via decode_type_list_v_dec
{
    if items.len() == 0 {
        Ok(Seq::empty())
    } else {
        match decode_type_v(items[0]) {
            Ok(first) => match decode_type_list_v(items.drop_first()) {
                Ok(rest) => Ok(seq![first] + rest),
                Err(e) => Err(e),
            },
            Err(e) => Err(e),
        }
    }
}

#[via_fn]
proof fn decode_type_list_v_dec(items: Seq<JsonV>) {
    if items.len() > 0 {
        lemma_items_size_drop_first(items);
        lemma_json_size_pos(items[0]);
    }
}

/// The decode of one type expression, with the fixed discriminator
/// precedence and the opaque fallback.
pub open spec fn decode_type_v(j: JsonV) -> Result<TypeV, DecodeError>
    decreases json_size(j), 0int,
    via decode_type_v_dec
{
    if json_has_key(j, "borrowed_ref"@) {
        decode_borrowed_ref_v(json_get(j, "borrowed_ref"@)->0)
    } else if json_has_key(j, "resolved_path"@) {
        decode_resolved_path_v(json_get(j, "resolved_path"@)->0)
    } else if json_has_key(j, "generic"@) {
        match json_get(j, "generic"@)->0 {
            JsonV::Str(s) => Ok(TypeV::Generic { name: s }),
            _ => Err(DecodeError::MalformedGeneric),
        }
    } else if json_has_key(j, "primitive"@) {
        match json_get(j, "primitive"@)->0 {
            JsonV::Str(s) => Ok(TypeV::Primitive { name: s }),
            _ => Err(DecodeError::MalformedPrimitive),
        }
    } else if json_has_key(j, "tuple"@) {
        match json_get(j, "tuple"@)->0 {
            JsonV::Arr(items) => match decode_type_list_v(items) {
                Ok(ts) => Ok(TypeV::Tuple { elements: ts }),
                Err(e) => Err(e),
            },
            _ => Err(DecodeError::MalformedTuple),
        }
    } else if json_has_key(j, "slice"@) {
        match decode_type_v(json_get(j, "slice"@)->0) {
            Ok(t) => Ok(TypeV::Slice { element: Box::new(t) }),
            Err(e) => Err(e),
        }
    } else {
        Ok(TypeV::Other { raw: j })
    }
}

#[via_fn]
proof fn decode_type_v_dec(j: JsonV) {
    if json_has_key(j, "borrowed_ref"@) {
        lemma_json_get_size(j, "borrowed_ref"@);
    } else if json_has_key(j, "resolved_path"@) {
        lemma_json_get_size(j, "resolved_path"@);
    } else if json_has_key(j, "tuple"@) {
        lemma_json_get_size(j, "tuple"@);
    } else if json_has_key(j, "slice"@) {
        lemma_json_get_size(j, "slice"@);
    }
}

/// The decoded variadic flag of a signature: `is_c_variadic` when present,
/// else `is_variadic` when present, else false; either must be a boolean.
pub open spec fn decode_variadic_v(j: JsonV) -> Result<bool, DecodeError> {
    match json_get(j, "is_c_variadic"@) {
        Some(JsonV::Bool(b)) => Ok(b),
        Some(_) => Err(DecodeError::MalformedSignature),
        None => match json_get(j, "is_variadic"@) {
            Some(JsonV::Bool(b)) => Ok(b),
            Some(_) => Err(DecodeError::MalformedSignature),
            None => Ok(false),
        },
    }
}

/// The decoded optional return type: absent or null means none.
pub open spec fn decode_output_v(j: JsonV) -> Result<Option<TypeV>, DecodeError> {
    match json_get(j, "output"@) {
        None => Ok(None),
        Some(JsonV::Null) => Ok(None),
        Some(t) => match decode_type_v(t) {
            Ok(tv) => Ok(Some(tv)),
            Err(e) => Err(e),
        },
    }
}

/// The decode of one parameter entry: a two-element array of the
/// parameter's name (a string) and its type value.
pub open spec fn decode_param_list_v(items: Seq<JsonV>) -> Result<
    Seq<(Seq<char>, TypeV)>,
    DecodeError,
>
    decreases items_size(items), 1int,
    via decode_param_list_v_dec
{
    if items.len() == 0 {
        Ok(Seq::empty())
    } else {
        match items[0] {
            JsonV::Arr(pair) => if pair.len() == 2 {
                match pair[0] {
                    JsonV::Str(name) => match decode_type_v(pair[1]) {
                        Ok(t) => match decode_param_list_v(items.drop_first()) {
                            Ok(rest) => Ok(seq![(name, t)] + rest),
                            Err(e) => Err(e),
                        },
                        Err(e) => Err(e),
                    },
                    _ => Err(DecodeError::MalformedSignature),
                }
            } else {
                Err(DecodeError::MalformedSignature)
            },
            _ => Err(DecodeError::MalformedSignature),
        }
    }
}

#[via_fn]
proof fn decode_param_list_v_dec(items: Seq<JsonV>) {
    if items.len() > 0 {
        lemma_items_size_drop_first(items);
        lemma_json_size_pos(items[0]);
        if items[0] matches JsonV::Arr(pair) && pair.len() == 2 {
            let pair = items[0]->Arr_0;
            lemma_item_size(pair, 1);
        }
    }
}

/// The decode of a function signature: `inputs` must be an array of
/// parameter entries; `output` and the variadic flag as above.
pub open spec fn decode_function_sig_v(j: JsonV) -> Result<FunctionSigV, DecodeError> {
    match json_get(j, "inputs"@) {
        Some(JsonV::Arr(items)) => match decode_param_list_v(items) {
            Ok(inputs) => match decode_output_v(j) {
                Ok(output) => match decode_variadic_v(j) {
                    Ok(v) => Ok(FunctionSigV { inputs, output, is_c_variadic: v }),
                    Err(e) => Err(e),
                },
                Err(e) => Err(e),
            },
            Err(e) => Err(e),
        },
        _ => Err(DecodeError::MalformedSignature),
    }
}

/// The decoder commits to the first discriminator key present, in the
/// fixed order `borrowed_ref`, `resolved_path`, `generic`, `primitive`,
/// `tuple`, `slice`; a value carrying none of those keys, whatever else it
/// carries, decodes to the opaque fallback and never fails.
pub proof fn lemma_decoder_precedence(j: JsonV)
    ensures
        json_has_key(j, "borrowed_ref"@) ==> decode_type_v(j) == decode_borrowed_ref_v(
            json_get(j, "borrowed_ref"@)->0,
        ),
        !json_has_key(j, "borrowed_ref"@) && json_has_key(j, "resolved_path"@) ==> decode_type_v(j)
            == decode_resolved_path_v(json_get(j, "resolved_path"@)->0),
        !json_has_key(j, "borrowed_ref"@) && !json_has_key(j, "resolved_path"@) && json_has_key(
            j,
            "generic"@,
        ) ==> decode_type_v(j) == (match json_get(j, "generic"@)->0 {
            JsonV::Str(s) => Ok::<TypeV, DecodeError>(TypeV::Generic { name: s }),
            _ => Err(DecodeError::MalformedGeneric),
        }),
        !json_has_key(j, "borrowed_ref"@) && !json_has_key(j, "resolved_path"@) && !json_has_key(
            j,
            "generic"@,
        ) && json_has_key(j, "primitive"@) ==> decode_type_v(j) == (match json_get(
            j,
            "primitive"@,
        )->0 {
            JsonV::Str(s) => Ok::<TypeV, DecodeError>(TypeV::Primitive { name: s }),
            _ => Err(DecodeError::MalformedPrimitive),
        }),
        !json_has_key(j, "borrowed_ref"@) && !json_has_key(j, "resolved_path"@) && !json_has_key(
            j,
            "generic"@,
        ) && !json_has_key(j, "primitive"@) && json_has_key(j, "tuple"@) ==> decode_type_v(j) == (
        match json_get(j, "tuple"@)->0 {
            JsonV::Arr(items) => match decode_type_list_v(items) {
                Ok(ts) => Ok::<TypeV, DecodeError>(TypeV::Tuple { elements: ts }),
                Err(e) => Err(e),
            },
            _ => Err(DecodeError::MalformedTuple),
        }),
        !json_has_key(j, "borrowed_ref"@) && !json_has_key(j, "resolved_path"@) && !json_has_key(
            j,
            "generic"@,
        ) && !json_has_key(j, "primitive"@) && !json_has_key(j, "tuple"@) && json_has_key(
            j,
            "slice"@,
        ) ==> decode_type_v(j) == (match decode_type_v(json_get(j, "slice"@)->0) {
            Ok(t) => Ok::<TypeV, DecodeError>(TypeV::Slice { element: Box::new(t) }),
            Err(e) => Err(e),
        }),
        !json_has_key(j, "borrowed_ref"@) && !json_has_key(j, "resolved_path"@) && !json_has_key(
            j,
            "generic"@,
        ) && !json_has_key(j, "primitive"@) && !json_has_key(j, "tuple"@) && !json_has_key(
            j,
            "slice"@,
        ) ==> decode_type_v(j) == Ok::<TypeV, DecodeError>(TypeV::Other { raw: j }),
{
}

/// The model of an executable type-decode result.
pub open spec fn type_result_view(r: Result<Type, DecodeError>) -> Result<TypeV, DecodeError> {
    match r {
        Ok(t) => Ok(t@),
        Err(e) => Err(e),
    }
}

/// Decodes one type expression, committing to the first discriminator key
/// present and falling back to the opaque variant when none is.
pub fn decode_type(j: &Json) -> (r: Result<Type, DecodeError>)
    ensures
        type_result_view(r) == decode_type_v(j@),
    decreases json_size(j@), 0int,
{
    match json_obj_get(j, "borrowed_ref") {
        Some(b) => {
            proof {
                lemma_json_get_size(j@, "borrowed_ref"@);
            }
            return decode_borrowed_ref(b);
        },
        None => {},
    }
    match json_obj_get(j, "resolved_path") {
        Some(p) => {
            proof {
                lemma_json_get_size(j@, "resolved_path"@);
            }
            return decode_resolved_path(p);
        },
        None => {},
    }
    match json_obj_get(j, "generic") {
        Some(v) => {
            return match v {
                Json::Str(s) => Ok(Type::Generic { generic: s.clone() }),
                _ => Err(DecodeError::MalformedGeneric),
            };
        },
        None => {},
    }
    match json_obj_get(j, "primitive") {
        Some(v) => {
            return match v {
                Json::Str(s) => Ok(Type::Primitive { primitive: s.clone() }),
                _ => Err(DecodeError::MalformedPrimitive),
            };
        },
        None => {},
    }
    match json_obj_get(j, "tuple") {
        Some(v) => {
            match v {
                Json::Arr(items) => {
                    proof {
                        lemma_json_get_size(j@, "tuple"@);
                    }
                    return match decode_type_list(items) {
                        Ok(ts) => Ok(Type::Tuple { tuple: ts }),
                        Err(e) => Err(e),
                    };
                },
                _ => {
                    return Err(DecodeError::MalformedTuple);
                },
            }
        },
        None => {},
    }
    match json_obj_get(j, "slice") {
        Some(v) => {
            proof {
                lemma_json_get_size(j@, "slice"@);
            }
            return match decode_type(v) {
                Ok(t) => Ok(Type::Slice { slice: Box::new(t) }),
                Err(e) => Err(e),
            };
        },
        None => {},
    }
    Ok(Type::Other(j.clone()))
}

/// Decodes a reference's contents (the value under `borrowed_ref`).
fn decode_borrowed_ref(b: &Json) -> (r: Result<Type, DecodeError>)
    ensures
        type_result_view(r) == decode_borrowed_ref_v(b@),
    decreases json_size(b@), 0int,
{
    let m: bool = match json_obj_get(b, "is_mutable") {
        Some(v) => match v {
            Json::Bool(x) => *x,
            _ => {
                return Err(DecodeError::MalformedBorrowedRef);
            },
        },
        None => {
            return Err(DecodeError::MalformedBorrowedRef);
        },
    };
    let lt: Option<String> = match json_obj_get(b, "lifetime") {
        None => None,
        Some(v) => match v {
            Json::Null => None,
            Json::Str(s) => Some(s.clone()),
            _ => {
                return Err(DecodeError::MalformedBorrowedRef);
            },
        },
    };
    match json_obj_get(b, "type") {
        Some(t) => {
            proof {
                lemma_json_get_size(b@, "type"@);
            }
            match decode_type(t) {
                Ok(inner) => Ok(
                    Type::BorrowedRef {
                        borrowed_ref: BorrowedRefType {
                            is_mutable: m,
                            lifetime: lt,
                            inner_type: Box::new(inner),
                        },
                    },
                ),
                Err(e) => Err(e),
            }
        },
        None => Err(DecodeError::MalformedBorrowedRef),
    }
}

/// Decodes a resolved path's contents (the value under `resolved_path`).
fn decode_resolved_path(p: &Json) -> (r: Result<Type, DecodeError>)
    ensures
        type_result_view(r) == decode_resolved_path_v(p@),
    decreases json_size(p@), 0int,
{
    let name: String = match json_obj_get(p, "name") {
        Some(v) => match v {
            Json::Str(s) => s.clone(),
            _ => {
                return Err(DecodeError::MalformedResolvedPath);
            },
        },
        None => {
            return Err(DecodeError::MalformedResolvedPath);
        },
    };
    match json_obj_get(p, "args") {
        None => Ok(Type::ResolvedPath { resolved_path: ResolvedPath { name, args: None } }),
        Some(a) => match a {
            Json::Null => Ok(Type::ResolvedPath { resolved_path: ResolvedPath { name, args: None } }),
            _ => {
                proof {
                    lemma_json_get_size(p@, "args"@);
                }
                match decode_generic_args(a) {
                    Ok(ga) => Ok(
                        Type::ResolvedPath { resolved_path: ResolvedPath { name, args: Some(ga) } },
                    ),
                    Err(e) => Err(e),
                }
            },
        },
    }
}

/// Decodes a generic-argument envelope (the value under `args`).
fn decode_generic_args(a: &Json) -> (r: Result<GenericArgs, DecodeError>)
    ensures
        (match r {
            Ok(ga) => decode_generic_args_v(a@) == Ok::<AngleArgsV, DecodeError>(ga@),
            Err(e) => decode_generic_args_v(a@) == Err::<AngleArgsV, DecodeError>(e),
        }),
    decreases json_size(a@), 0int,
{
    match json_obj_get(a, "angle_bracketed") {
        Some(ab) => {
            proof {
                lemma_json_get_size(a@, "angle_bracketed"@);
            }
            let args: Vec<GenericArg> = match json_obj_get(ab, "args") {
                None => Vec::new(),
                Some(v) => match v {
                    Json::Arr(items) => {
                        proof {
                            lemma_json_get_size(ab@, "args"@);
                        }
                        match decode_garg_list(items) {
                            Ok(gs) => gs,
                            Err(e) => {
                                return Err(e);
                            },
                        }
                    },
                    _ => {
                        return Err(DecodeError::MalformedResolvedPath);
                    },
                },
            };
            let constraints: Vec<String> = match json_obj_get(ab, "constraints") {
                None => Vec::new(),
                Some(v) => match v {
                    Json::Arr(items) => match decode_string_list(items) {
                        Ok(ss) => ss,
                        Err(e) => {
                            return Err(e);
                        },
                    },
                    _ => {
                        return Err(DecodeError::MalformedResolvedPath);
                    },
                },
            };
            Ok(GenericArgs::AngleBracketed {
                angle_bracketed: AngleBracketedArgs { args, constraints },
            })
        },
        None => Err(DecodeError::MalformedResolvedPath),
    }
}

/// Decodes a list of type values, stopping at the leftmost failure.
fn decode_type_list(items: &Vec<Json>) -> (r: Result<Vec<Type>, DecodeError>)
    ensures
        (match r {
            Ok(ts) => decode_type_list_v(jsons_view(items@)) == Ok::<Seq<TypeV>, DecodeError>(
                types_view(ts@),
            ),
            Err(e) => decode_type_list_v(jsons_view(items@)) == Err::<Seq<TypeV>, DecodeError>(e),
        }),
    decreases items_size(jsons_view(items@)), 1int,
{
    let ghost views = jsons_view(items@);
    proof {
        crate::json::lemma_jsons_view_len(items@);
        assert(views.subrange(0, views.len() as int) =~= views);
    }
    let mut out: Vec<Type> = Vec::new();
    let mut i: usize = 0;
    while i < items.len()
        invariant
            i <= items@.len(),
            views == jsons_view(items@),
            views.len() == items@.len(),
            out@.len() == i,
            (match decode_type_list_v(views.subrange(i as int, views.len() as int)) {
                Ok(rest) => decode_type_list_v(views) == Ok::<Seq<TypeV>, DecodeError>(
                    types_view(out@) + rest,
                ),
                Err(e) => decode_type_list_v(views) == Err::<Seq<TypeV>, DecodeError>(e),
            }),
        decreases items@.len() - i,
    {
        let ghost prev_out = out@;
        let ghost suffix = views.subrange(i as int, views.len() as int);
        proof {
            lemma_jsons_view_index(items@, i as int);
            lemma_item_size(views, i as int);
            assert(suffix[0] == views[i as int]);
            assert(suffix.drop_first() =~= views.subrange(i + 1, views.len() as int));
        }
        match decode_type(&items[i]) {
            Ok(t) => {
                out.push(t);
                proof {
                    assert(out@.drop_last() =~= prev_out);
                    assert(types_view(out@) == types_view(prev_out).push(t@));
                    match decode_type_list_v(suffix.drop_first()) {
                        Ok(rest) => {
                            assert(types_view(prev_out) + (seq![t@] + rest) =~= types_view(out@)
                                + rest);
                        },
                        Err(_) => {},
                    }
                }
            },
            Err(e) => {
                return Err(e);
            },
        }
        i += 1;
    }
    proof {
        assert(views.subrange(views.len() as int, views.len() as int).len() == 0);
        assert(types_view(out@) + Seq::<TypeV>::empty() =~= types_view(out@));
    }
    Ok(out)
}

/// Decodes a list of generic-argument entries, stopping at the leftmost
/// failure.
fn decode_garg_list(items: &Vec<Json>) -> (r: Result<Vec<GenericArg>, DecodeError>)
    ensures
        (match r {
            Ok(gs) => decode_garg_list_v(jsons_view(items@)) == Ok::<Seq<TypeV>, DecodeError>(
                garg_list_view(gs@),
            ),
            Err(e) => decode_garg_list_v(jsons_view(items@)) == Err::<Seq<TypeV>, DecodeError>(e),
        }),
    decreases items_size(jsons_view(items@)), 1int,
{
    let ghost views = jsons_view(items@);
    proof {
        crate::json::lemma_jsons_view_len(items@);
        assert(views.subrange(0, views.len() as int) =~= views);
    }
    let mut out: Vec<GenericArg> = Vec::new();
    let mut i: usize = 0;
    while i < items.len()
        invariant
            i <= items@.len(),
            views == jsons_view(items@),
            views.len() == items@.len(),
            out@.len() == i,
            (match decode_garg_list_v(views.subrange(i as int, views.len() as int)) {
                Ok(rest) => decode_garg_list_v(views) == Ok::<Seq<TypeV>, DecodeError>(
                    garg_list_view(out@) + rest,
                ),
                Err(e) => decode_garg_list_v(views) == Err::<Seq<TypeV>, DecodeError>(e),
            }),
        decreases items@.len() - i,
    {
        let ghost prev_out = out@;
        let ghost suffix = views.subrange(i as int, views.len() as int);
        proof {
            lemma_jsons_view_index(items@, i as int);
            lemma_item_size(views, i as int);
            assert(suffix[0] == views[i as int]);
            assert(suffix.drop_first() =~= views.subrange(i + 1, views.len() as int));
        }
        match json_obj_get(&items[i], "type") {
            Some(t) => {
                proof {
                    lemma_json_get_size(views[i as int], "type"@);
                }
                match decode_type(t) {
                    Ok(inner) => {
                        let bx = Box::new(inner);
                        let ghost inner_v = garg_view(GenericArg::Type(bx));
                        out.push(GenericArg::Type(bx));
                        proof {
                            assert(out@.drop_last() =~= prev_out);
                            assert(out@.last() == GenericArg::Type(bx));
                            assert(garg_list_view(out@) == garg_list_view(prev_out).push(
                                inner_v,
                            ));
                            assert(inner_v == inner@);
                            match decode_garg_list_v(suffix.drop_first()) {
                                Ok(rest) => {
                                    assert(garg_list_view(prev_out) + (seq![inner@] + rest)
                                        =~= garg_list_view(out@) + rest);
                                },
                                Err(_) => {},
                            }
                        }
                    },
                    Err(e) => {
                        return Err(e);
                    },
                }
            },
            None => {
                return Err(DecodeError::MalformedResolvedPath);
            },
        }
        i += 1;
    }
    proof {
        assert(views.subrange(views.len() as int, views.len() as int).len() == 0);
        assert(garg_list_view(out@) + Seq::<TypeV>::empty() =~= garg_list_view(out@));
    }
    Ok(out)
}

/// Decodes a list of strings, stopping at the leftmost failure.
fn decode_string_list(items: &Vec<Json>) -> (r: Result<Vec<String>, DecodeError>)
    ensures
        (match r {
            Ok(ss) => decode_string_list_v(jsons_view(items@)) == Ok::<
                Seq<Seq<char>>,
                DecodeError,
            >(strings_view(ss@)),
            Err(e) => decode_string_list_v(jsons_view(items@)) == Err::<
                Seq<Seq<char>>,
                DecodeError,
            >(e),
        }),
{
    let ghost views = jsons_view(items@);
    proof {
        crate::json::lemma_jsons_view_len(items@);
        assert(views.subrange(0, views.len() as int) =~= views);
    }
    let mut out: Vec<String> = Vec::new();
    let mut i: usize = 0;
    while i < items.len()
        invariant
            i <= items@.len(),
            views == jsons_view(items@),
            views.len() == items@.len(),
            out@.len() == i,
            (match decode_string_list_v(views.subrange(i as int, views.len() as int)) {
                Ok(rest) => decode_string_list_v(views) == Ok::<Seq<Seq<char>>, DecodeError>(
                    strings_view(out@) + rest,
                ),
                Err(e) => decode_string_list_v(views) == Err::<Seq<Seq<char>>, DecodeError>(e),
            }),
        decreases items@.len() - i,
    {
        let ghost prev_out = out@;
        let ghost suffix = views.subrange(i as int, views.len() as int);
        proof {
            lemma_jsons_view_index(items@, i as int);
            assert(suffix[0] == views[i as int]);
            assert(suffix.drop_first() =~= views.subrange(i + 1, views.len() as int));
        }
        match &items[i] {
            Json::Str(s) => {
                out.push(s.clone());
                proof {
                    assert(out@.drop_last() =~= prev_out);
                    assert(strings_view(out@) == strings_view(prev_out).push(s@));
                    match decode_string_list_v(suffix.drop_first()) {
                        Ok(rest) => {
                            assert(strings_view(prev_out) + (seq![s@] + rest) =~= strings_view(
                                out@,
                            ) + rest);
                        },
                        Err(_) => {},
                    }
                }
            },
            _ => {
                return Err(DecodeError::MalformedResolvedPath);
            },
        }
        i += 1;
    }
    proof {
        assert(views.subrange(views.len() as int, views.len() as int).len() == 0);
        assert(strings_view(out@) + Seq::<Seq<char>>::empty() =~= strings_view(out@));
    }
    Ok(out)
}

/// Decodes a parameter list: each entry a two-element array of name and
/// type, stopping at the leftmost failure.
fn decode_param_list(items: &Vec<Json>) -> (r: Result<Vec<(String, Type)>, DecodeError>)
    ensures
        (match r {
            Ok(ps) => decode_param_list_v(jsons_view(items@)) == Ok::<
                Seq<(Seq<char>, TypeV)>,
                DecodeError,
            >(params_view(ps@)),
            Err(e) => decode_param_list_v(jsons_view(items@)) == Err::<
                Seq<(Seq<char>, TypeV)>,
                DecodeError,
            >(e),
        }),
    decreases items_size(jsons_view(items@)), 1int,
{
    let ghost views = jsons_view(items@);
    proof {
        crate::json::lemma_jsons_view_len(items@);
        assert(views.subrange(0, views.len() as int) =~= views);
    }
    let mut out: Vec<(String, Type)> = Vec::new();
    let mut i: usize = 0;
    while i < items.len()
        invariant
            i <= items@.len(),
            views == jsons_view(items@),
            views.len() == items@.len(),
            out@.len() == i,
            (match decode_param_list_v(views.subrange(i as int, views.len() as int)) {
                Ok(rest) => decode_param_list_v(views) == Ok::<
                    Seq<(Seq<char>, TypeV)>,
                    DecodeError,
                >(params_view(out@) + rest),
                Err(e) => decode_param_list_v(views) == Err::<
                    Seq<(Seq<char>, TypeV)>,
                    DecodeError,
                >(e),
            }),
        decreases items@.len() - i,
    {
        let ghost prev_out = out@;
        let ghost suffix = views.subrange(i as int, views.len() as int);
        proof {
            lemma_jsons_view_index(items@, i as int);
            lemma_item_size(views, i as int);
            assert(suffix[0] == views[i as int]);
            assert(suffix.drop_first() =~= views.subrange(i + 1, views.len() as int));
        }
        match &items[i] {
            Json::Arr(pair) => {
                proof {
                    crate::json::lemma_jsons_view_len(pair@);
                }
                if pair.len() == 2 {
                    proof {
                        lemma_jsons_view_index(pair@, 0);
                        lemma_jsons_view_index(pair@, 1);
                    }
                    match &pair[0] {
                        Json::Str(name) => {
                            proof {
                                lemma_item_size(jsons_view(pair@), 1);
                            }
                            match decode_type(&pair[1]) {
                                Ok(t) => {
                                    out.push((name.clone(), t));
                                    proof {
                                        assert(out@.drop_last() =~= prev_out);
                                        assert(params_view(out@) == params_view(prev_out).push(
                                            (name@, t@),
                                        ));
                                        match decode_param_list_v(suffix.drop_first()) {
                                            Ok(rest) => {
                                                assert(params_view(prev_out) + (seq![(name@, t@)]
                                                    + rest) =~= params_view(out@) + rest);
                                            },
                                            Err(_) => {},
                                        }
                                    }
                                },
                                Err(e) => {
                                    return Err(e);
                                },
                            }
                        },
                        _ => {
                            return Err(DecodeError::MalformedSignature);
                        },
                    }
                } else {
                    return Err(DecodeError::MalformedSignature);
                }
            },
            _ => {
                return Err(DecodeError::MalformedSignature);
            },
        }
        i += 1;
    }
    proof {
        assert(views.subrange(views.len() as int, views.len() as int).len() == 0);
        assert(params_view(out@) + Seq::<(Seq<char>, TypeV)>::empty() =~= params_view(out@));
    }
    Ok(out)
}

/// Decodes a function signature: ordered parameters, optional return type,
/// and the variadic flag.
pub fn decode_function_sig(j: &Json) -> (r: Result<FunctionSig, DecodeError>)
    ensures
        (match r {
            Ok(s) => decode_function_sig_v(j@) == Ok::<FunctionSigV, DecodeError>(s@),
            Err(e) => decode_function_sig_v(j@) == Err::<FunctionSigV, DecodeError>(e),
        }),
{
    let inputs: Vec<(String, Type)> = match json_obj_get(j, "inputs") {
        Some(v) => match v {
            Json::Arr(items) => match decode_param_list(items) {
                Ok(ps) => ps,
                Err(e) => {
                    return Err(e);
                },
            },
            _ => {
                return Err(DecodeError::MalformedSignature);
            },
        },
        None => {
            return Err(DecodeError::MalformedSignature);
        },
    };
    let output: Option<Type> = match json_obj_get(j, "output") {
        None => None,
        Some(v) => match v {
            Json::Null => None,
            _ => match decode_type(v) {
                Ok(t) => Some(t),
                Err(e) => {
                    return Err(e);
                },
            },
        },
    };
    let is_c_variadic: bool = match json_obj_get(j, "is_c_variadic") {
        Some(v) => match v {
            Json::Bool(b) => *b,
            _ => {
                return Err(DecodeError::MalformedSignature);
            },
        },
        None => match json_obj_get(j, "is_variadic") {
            Some(v) => match v {
                Json::Bool(b) => *b,
                _ => {
                    return Err(DecodeError::MalformedSignature);
                },
            },
            None => false,
        },
    };
    Ok(FunctionSig { inputs, output, is_c_variadic })
}

} // verus!
