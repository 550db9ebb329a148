//! The item level of a rustdoc JSON document: the index of items, the
//! decode of one item, and the one-line signature rendering of a
//! function-kind item.
use vstd::prelude::*;
use std::collections::HashMap;
use crate::json::{Json, JsonV, json_get, json_obj_get, jpairs_view, lemma_jpairs_view_index,
    lemma_jpairs_view_len};
use crate::signature_builder::{FunctionSig, FunctionSigV, sig_text, function_sig_to_string};
use crate::decode::{DecodeError, decode_function_sig, decode_function_sig_v};

verus! {

/// The top level of a rustdoc JSON document: item identifier to item.
#[derive(Debug)]
pub struct RustDocJson {
    pub index: HashMap<String, Item>,
}

/// One item of the document; only function-kind items carry a signature.
#[derive(Debug)]
pub struct Item {
    pub name: Option<String>,
    pub docs: Option<String>,
    pub inner: ItemInner,
}

/// The payload of an item: a `function` member marks a function item.
#[derive(Debug)]
pub struct ItemInner {
    pub function: Option<Function>,
}

/// A function item: its signature.
#[derive(Debug)]
pub struct Function {
    pub sig: FunctionSig,
}

/// The mathematical model of an item: its optional name and
/// documentation, and its signature when it is a function item.
pub struct ItemV {
    pub name: Option<Seq<char>>,
    pub docs: Option<Seq<char>>,
    pub function: Option<FunctionSigV>,
}

impl View for Item {
    type V = ItemV;

    open spec fn view(&self) -> ItemV {
        ItemV {
            name: match self.name {
                Some(n) => Some(n@),
                None => None,
            },
            docs: match self.docs {
                Some(d) => Some(d@),
                None => None,
            },
            function: match self.inner.function {
                Some(f) => Some(f.sig@),
                None => None,
            },
        }
    }
}

/// The name an item is rendered under: its own name, or `unknown` when it
/// has none.
pub open spec fn item_display_name(i: ItemV) -> Seq<char> {
    match i.name {
        Some(n) => n,
        None => "unknown"@,
    }
}

/// The decoded optional string member under `key`: absent or null means
/// none; anything else but a string is malformed.
pub open spec fn decode_opt_string_v(j: JsonV, key: Seq<char>) -> Result<
    Option<Seq<char>>,
    DecodeError,
> {
    match json_get(j, key) {
        None => Ok(None),
        Some(JsonV::Null) => Ok(None),
        Some(JsonV::Str(s)) => Ok(Some(s)),
        Some(_) => Err(DecodeError::MalformedItem),
    }
}

/// The decoded signature of an item's payload: the payload must be an
/// object; an absent or null `function` member means the item is not a
/// function; a function must carry a `sig` member that decodes.
pub open spec fn decode_item_function_v(j: JsonV) -> Result<Option<FunctionSigV>, DecodeError> {
    match json_get(j, "inner"@) {
        Some(inner) => if inner is Obj {
            match json_get(inner, "function"@) {
                None => Ok(None),
                Some(JsonV::Null) => Ok(None),
                Some(f) => match json_get(f, "sig"@) {
                    Some(s) => match decode_function_sig_v(s) {
                        Ok(sv) => Ok(Some(sv)),
                        Err(e) => Err(e),
                    },
                    None => Err(DecodeError::MalformedItem),
                },
            }
        } else {
            Err(DecodeError::MalformedItem)
        },
        None => Err(DecodeError::MalformedItem),
    }
}

/// The decode of one item record: optional `name` and `docs` strings and
/// a required `inner` payload.
pub open spec fn decode_item_v(j: JsonV) -> Result<ItemV, DecodeError> {
    match decode_opt_string_v(j, "name"@) {
        Ok(name) => match decode_opt_string_v(j, "docs"@) {
            Ok(docs) => match decode_item_function_v(j) {
                Ok(function) => Ok(ItemV { name, docs, function }),
                Err(e) => Err(e),
            },
            Err(e) => Err(e),
        },
        Err(e) => Err(e),
    }
}

/// The decode of the members of the document's index object, in order.
/// The leftmost failure wins.
pub open spec fn decode_item_pairs_v(pairs: Seq<(Seq<char>, JsonV)>) -> Result<
    Seq<(Seq<char>, ItemV)>,
    DecodeError,
>
    decreases pairs.len(),
{
    if pairs.len() == 0 {
        Ok(Seq::empty())
    } else {
        match decode_item_v(pairs[0].1) {
            Ok(it) => match decode_item_pairs_v(pairs.drop_first()) {
                Ok(rest) => Ok(seq![(pairs[0].0, it)] + rest),
                Err(e) => Err(e),
            },
            Err(e) => Err(e),
        }
    }
}

/// The decode of a whole document: it must carry an `index` object, whose
/// member values are item records.
pub open spec fn decode_index_v(j: JsonV) -> Result<Seq<(Seq<char>, ItemV)>, DecodeError> {
    match json_get(j, "index"@) {
        Some(JsonV::Obj(pairs)) => decode_item_pairs_v(pairs),
        _ => Err(DecodeError::MalformedDocument),
    }
}

/// The models of a sequence of named items.
pub open spec fn ipairs_view(ps: Seq<(String, Item)>) -> Seq<(Seq<char>, ItemV)>
    decreases ps,
{
    if ps.len() == 0 {
        Seq::empty()
    } else {
        ipairs_view(ps.drop_last()).push((ps.last().0@, ps.last().1@))
    }
}

/// Renders a function-kind item as its one-line signature; a non-function
/// item has no rendering.
pub fn item_to_signature_string(item: &Item) -> (r: Option<String>)
    ensures
        (match item@.function {
            Some(f) => r is Some && r->0@ == sig_text(item_display_name(item@), f),
            None => r is None,
        }),
{
    let name: &str = match &item.name {
        Some(n) => n.as_str(),
        None => "unknown",
    };
    match &item.inner.function {
        Some(func) => Some(function_sig_to_string(name, &func.sig)),
        None => None,
    }
}

/// Decodes one item record.
pub fn decode_item(j: &Json) -> (r: Result<Item, DecodeError>)
    ensures
        (match r {
            Ok(it) => decode_item_v(j@) == Ok::<ItemV, DecodeError>(it@),
            Err(e) => decode_item_v(j@) == Err::<ItemV, DecodeError>(e),
        }),
{
    let name: Option<String> = match json_obj_get(j, "name") {
        None => None,
        Some(v) => match v {
            Json::Null => None,
            Json::Str(s) => Some(s.clone()),
            _ => {
                return Err(DecodeError::MalformedItem);
            },
        },
    };
    let docs: Option<String> = match json_obj_get(j, "docs") {
        None => None,
        Some(v) => match v {
            Json::Null => None,
            Json::Str(s) => Some(s.clone()),
            _ => {
                return Err(DecodeError::MalformedItem);
            },
        },
    };
    let function: Option<Function> = match json_obj_get(j, "inner") {
        Some(inner) => match inner {
            Json::Obj(_) => match json_obj_get(inner, "function") {
                None => None,
                Some(fv) => match fv {
                    Json::Null => None,
                    _ => match json_obj_get(fv, "sig") {
                        Some(s) => match decode_function_sig(s) {
                            Ok(sig) => Some(Function { sig }),
                            Err(e) => {
                                return Err(e);
                            },
                        },
                        None => {
                            return Err(DecodeError::MalformedItem);
                        },
                    },
                },
            },
            _ => {
                return Err(DecodeError::MalformedItem);
            },
        },
        None => {
            return Err(DecodeError::MalformedItem);
        },
    };
    Ok(Item { name, docs, inner: ItemInner { function } })
}

/// Decodes the document's index into its named items, in the index's
/// member order.
pub fn decode_index(j: &Json) -> (r: Result<Vec<(String, Item)>, DecodeError>)
    ensures
        (match r {
            Ok(es) => decode_index_v(j@) == Ok::<Seq<(Seq<char>, ItemV)>, DecodeError>(
                ipairs_view(es@),
            ),
            Err(e) => decode_index_v(j@) == Err::<Seq<(Seq<char>, ItemV)>, DecodeError>(e),
        }),
{
    match json_obj_get(j, "index") {
        Some(v) => match v {
            Json::Obj(pairs) => {
                let ghost views = jpairs_view(pairs@);
                proof {
                    lemma_jpairs_view_len(pairs@);
                    assert(views.subrange(0, views.len() as int) =~= views);
                }
                let mut out: Vec<(String, Item)> = Vec::new();
                let mut i: usize = 0;
                while i < pairs.len()
                    invariant
                        i <= pairs@.len(),
                        views == jpairs_view(pairs@),
                        views.len() == pairs@.len(),
                        json_get(j@, "index"@) == Some(JsonV::Obj(views)),
                        out@.len() == i,
                        (match decode_item_pairs_v(
                            views.subrange(i as int, views.len() as int),
                        ) {
                            Ok(rest) => decode_item_pairs_v(views) == Ok::<
                                Seq<(Seq<char>, ItemV)>,
                                DecodeError,
                            >(ipairs_view(out@) + rest),
                            Err(e) => decode_item_pairs_v(views) == Err::<
                                Seq<(Seq<char>, ItemV)>,
                                DecodeError,
                            >(e),
                        }),
                    decreases pairs@.len() - i,
                {
                    let ghost prev_out = out@;
                    let ghost suffix = views.subrange(i as int, views.len() as int);
                    proof {
                        lemma_jpairs_view_index(pairs@, i as int);
                        assert(suffix[0] == views[i as int]);
                        assert(suffix.drop_first() =~= views.subrange(i + 1, views.len() as int));
                    }
                    let p = &pairs[i];
                    match decode_item(&p.1) {
                        Ok(it) => {
                            out.push((p.0.clone(), it));
                            proof {
                                assert(out@.drop_last() =~= prev_out);
                                assert(ipairs_view(out@) == ipairs_view(prev_out).push(
                                    (p.0@, it@),
                                ));
                                match decode_item_pairs_v(suffix.drop_first()) {
                                    Ok(rest) => {
                                        assert(ipairs_view(prev_out) + (seq![(p.0@, it@)] + rest)
                                            =~= ipairs_view(out@) + rest);
                                    },
                                    Err(_) => {},
                                }
                            }
                        },
                        Err(e) => {
                            return Err(e);
                        },
                    }
                    i += 1;
                }
                proof {
                    assert(views.subrange(views.len() as int, views.len() as int).len() == 0);
                    assert(ipairs_view(out@) + Seq::<(Seq<char>, ItemV)>::empty() =~= ipairs_view(
                        out@,
                    ));
                }
                Ok(out)
            },
            _ => Err(DecodeError::MalformedDocument),
        },
        None => Err(DecodeError::MalformedDocument),
    }
}

/// Decodes a whole document into its index. The index is keyed by the
/// item identifier; which items it then holds is not modeled here, so
/// callers that need the decoded items in order use [`decode_index`].
pub fn decode_doc(j: &Json) -> (r: Result<RustDocJson, DecodeError>)
    ensures
        r is Ok <==> decode_index_v(j@) is Ok,
        (match r {
            Ok(_) => true,
            Err(e) => decode_index_v(j@) == Err::<Seq<(Seq<char>, ItemV)>, DecodeError>(e),
        }),
{
    match decode_index(j) {
        Ok(entries) => {
            let mut entries = entries;
            let mut index: HashMap<String, Item> = HashMap::new();
            while entries.len() > 0
                decreases entries@.len(),
            {
                match entries.pop() {
                    Some((k, it)) => {
                        index.insert(k, it);
                    },
                    None => {},
                }
            }
            Ok(RustDocJson { index })
        },
        Err(e) => Err(e),
    }
}

} // verus!
