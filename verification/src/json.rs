//! A self-contained model of a JSON value, together with its canonical
//! compact rendering (the form `{"key":value,...}` with no whitespace and
//! with control characters, quotes and backslashes escaped).
//!
//! Numbers are carried as their decimal text exactly as the source document
//! rendered them, so no numeric formatting is performed here.
use vstd::prelude::*;
use vstd::string::StrSliceExecFns;

verus! {

/// One JSON value. Object members keep their source order; a number keeps
/// its source spelling.
#[derive(Debug)]
pub enum Json {
    Null,
    Bool(bool),
    Num(String),
    Str(String),
    Arr(Vec<Json>),
    Obj(Vec<(String, Json)>),
}

/// The mathematical model of a JSON value: the same tree with every string
/// abstracted to its character sequence.
pub enum JsonV {
    Null,
    Bool(bool),
    Num(Seq<char>),
    Str(Seq<char>),
    Arr(Seq<JsonV>),
    Obj(Seq<(Seq<char>, JsonV)>),
}

/// The model of a JSON value.
pub open spec fn json_view(j: Json) -> JsonV
    decreases j,
{
    match j {
        Json::Null => JsonV::Null,
        Json::Bool(b) => JsonV::Bool(b),
        Json::Num(s) => JsonV::Num(s@),
        Json::Str(s) => JsonV::Str(s@),
        Json::Arr(items) => JsonV::Arr(jsons_view(items@)),
        Json::Obj(pairs) => JsonV::Obj(jpairs_view(pairs@)),
    }
}

/// The models of the elements of a JSON array.
pub open spec fn jsons_view(items: Seq<Json>) -> Seq<JsonV>
    decreases items,
{
    if items.len() == 0 {
        Seq::empty()
    } else {
        jsons_view(items.drop_last()).push(json_view(items.last()))
    }
}

/// The models of the members of a JSON object.
pub open spec fn jpairs_view(pairs: Seq<(String, Json)>) -> Seq<(Seq<char>, JsonV)>
    decreases pairs,
{
    if pairs.len() == 0 {
        Seq::empty()
    } else {
        jpairs_view(pairs.drop_last()).push((pairs.last().0@, json_view(pairs.last().1)))
    }
}

impl View for Json {
    type V = JsonV;

    open spec fn view(&self) -> JsonV {
        json_view(*self)
    }
}

/// `jsons_view` maps the sequence element by element.
pub proof fn lemma_jsons_view_index(items: Seq<Json>, i: int)
    requires
        0 <= i < items.len(),
    ensures
        jsons_view(items).len() == items.len(),
        jsons_view(items)[i] == json_view(items[i]),
    decreases items.len(),
{
    lemma_jsons_view_len(items);
    lemma_jsons_view_len(items.drop_last());
    if i < items.len() - 1 {
        lemma_jsons_view_index(items.drop_last(), i);
    }
}

/// `jsons_view` keeps the sequence's length.
pub proof fn lemma_jsons_view_len(items: Seq<Json>)
    ensures
        jsons_view(items).len() == items.len(),
    decreases items.len(),
{
    if items.len() > 0 {
        lemma_jsons_view_len(items.drop_last());
    }
}

/// `jpairs_view` maps the sequence member by member.
pub proof fn lemma_jpairs_view_index(pairs: Seq<(String, Json)>, i: int)
    requires
        0 <= i < pairs.len(),
    ensures
        jpairs_view(pairs).len() == pairs.len(),
        jpairs_view(pairs)[i] == (pairs[i].0@, json_view(pairs[i].1)),
    decreases pairs.len(),
{
    lemma_jpairs_view_len(pairs);
    lemma_jpairs_view_len(pairs.drop_last());
    if i < pairs.len() - 1 {
        lemma_jpairs_view_index(pairs.drop_last(), i);
    }
}

/// `jpairs_view` keeps the sequence's length.
pub proof fn lemma_jpairs_view_len(pairs: Seq<(String, Json)>)
    ensures
        jpairs_view(pairs).len() == pairs.len(),
    decreases pairs.len(),
{
    if pairs.len() > 0 {
        lemma_jpairs_view_len(pairs.drop_last());
    }
}

/// The lowercase hexadecimal digit for `n` (meaningful for `0 <= n < 16`).
pub open spec fn hex_digit_char(n: int) -> char {
    if n == 0 {
        '0'
    } else if n == 1 {
        '1'
    } else if n == 2 {
        '2'
    } else if n == 3 {
        '3'
    } else if n == 4 {
        '4'
    } else if n == 5 {
        '5'
    } else if n == 6 {
        '6'
    } else if n == 7 {
        '7'
    } else if n == 8 {
        '8'
    } else if n == 9 {
        '9'
    } else if n == 10 {
        'a'
    } else if n == 11 {
        'b'
    } else if n == 12 {
        'c'
    } else if n == 13 {
        'd'
    } else if n == 14 {
        'e'
    } else {
        'f'
    }
}

/// How one character appears inside a rendered JSON string literal: quotes
/// and backslashes are escaped, the usual control characters get their short
/// escapes, the remaining control characters a `\u00..` escape, and every
/// other character stands for itself.
pub open spec fn escape_char(c: char) -> Seq<char> {
    if c == '"' {
        seq!['\\', '"']
    } else if c == '\\' {
        seq!['\\', '\\']
    } else if c == '\u{8}' {
        seq!['\\', 'b']
    } else if c == '\t' {
        seq!['\\', 't']
    } else if c == '\n' {
        seq!['\\', 'n']
    } else if c == '\u{c}' {
        seq!['\\', 'f']
    } else if c == '\r' {
        seq!['\\', 'r']
    } else if (c as u32) < 32 {
        seq!['\\', 'u', '0', '0', hex_digit_char(c as u32 as int / 16), hex_digit_char(c as u32 as int % 16)]
    } else {
        seq![c]
    }
}

/// The body of a rendered JSON string literal: each character escaped.
pub open spec fn escape_text(s: Seq<char>) -> Seq<char>
    decreases s.len(),
{
    if s.len() == 0 {
        Seq::empty()
    } else {
        escape_text(s.drop_last()) + escape_char(s.last())
    }
}

/// A rendered JSON string literal: the escaped body between double quotes.
pub open spec fn quoted_text(s: Seq<char>) -> Seq<char> {
    seq!['"'] + escape_text(s) + seq!['"']
}

/// The canonical compact rendering of a JSON value.
pub open spec fn json_text(j: JsonV) -> Seq<char>
    decreases j,
{
    match j {
        JsonV::Null => "null"@,
        JsonV::Bool(b) => if b {
            "true"@
        } else {
            "false"@
        },
        JsonV::Num(s) => s,
        JsonV::Str(s) => quoted_text(s),
        JsonV::Arr(items) => seq!['['] + items_text(items) + seq![']'],
        JsonV::Obj(pairs) => seq!['{'] + pairs_text(pairs) + seq!['}'],
    }
}

/// The comma-separated renderings of the elements of a JSON array.
pub open spec fn items_text(items: Seq<JsonV>) -> Seq<char>
    decreases items,
{
    if items.len() == 0 {
        Seq::empty()
    } else if items.len() == 1 {
        json_text(items[0])
    } else {
        items_text(items.drop_last()) + seq![','] + json_text(items.last())
    }
}

/// The comma-separated renderings of the members of a JSON object, each as
/// `"key":value`.
pub open spec fn pairs_text(pairs: Seq<(Seq<char>, JsonV)>) -> Seq<char>
    decreases pairs,
{
    if pairs.len() == 0 {
        Seq::empty()
    } else if pairs.len() == 1 {
        pair_text(pairs[0])
    } else {
        pairs_text(pairs.drop_last()) + seq![','] + pair_text(pairs.last())
    }
}

/// The rendering of one object member.
pub open spec fn pair_text(pair: (Seq<char>, JsonV)) -> Seq<char>
    decreases pair,
{
    quoted_text(pair.0) + seq![':'] + json_text(pair.1)
}

/// The number of nodes in a JSON value; the decoder's termination measure.
pub open spec fn json_size(j: JsonV) -> nat
    decreases j,
{
    match j {
        JsonV::Arr(items) => 1 + items_size(items),
        JsonV::Obj(pairs) => 1 + pairs_size(pairs),
        _ => 1,
    }
}

/// The summed sizes of the elements of an array.
pub open spec fn items_size(items: Seq<JsonV>) -> nat
    decreases items,
{
    if items.len() == 0 {
        0
    } else {
        items_size(items.drop_last()) + json_size(items.last())
    }
}

/// The summed sizes of the member values of an object.
pub open spec fn pairs_size(pairs: Seq<(Seq<char>, JsonV)>) -> nat
    decreases pairs,
{
    if pairs.len() == 0 {
        0
    } else {
        pairs_size(pairs.drop_last()) + json_size(pairs.last().1)
    }
}

/// The value under the first member with the given key, if any.
pub open spec fn lookup_pairs(pairs: Seq<(Seq<char>, JsonV)>, key: Seq<char>) -> Option<JsonV>
    decreases pairs.len(),
{
    if pairs.len() == 0 {
        None
    } else if pairs[0].0 == key {
        Some(pairs[0].1)
    } else {
        lookup_pairs(pairs.drop_first(), key)
    }
}

/// The value under `key` when `j` is an object that has such a member;
/// `None` when the member is absent or `j` is not an object.
pub open spec fn json_get(j: JsonV, key: Seq<char>) -> Option<JsonV> {
    match j {
        JsonV::Obj(pairs) => lookup_pairs(pairs, key),
        _ => None,
    }
}

/// Whether `j` is an object with a member named `key`.
pub open spec fn json_has_key(j: JsonV, key: Seq<char>) -> bool {
    json_get(j, key) is Some
}

/// Each array element's size is bounded by the summed element sizes.
pub proof fn lemma_item_size(items: Seq<JsonV>, i: int)
    requires
        0 <= i < items.len(),
    ensures
        json_size(items[i]) <= items_size(items),
    decreases items.len(),
{
    if i < items.len() - 1 {
        lemma_item_size(items.drop_last(), i);
    }
}

/// Each object member value's size is bounded by the summed member sizes.
pub proof fn lemma_pair_size(pairs: Seq<(Seq<char>, JsonV)>, i: int)
    requires
        0 <= i < pairs.len(),
    ensures
        json_size(pairs[i].1) <= pairs_size(pairs),
    decreases pairs.len(),
{
    if i < pairs.len() - 1 {
        lemma_pair_size(pairs.drop_last(), i);
    }
}

/// A successful lookup returns the value of some member with the given key.
pub proof fn lemma_lookup_found(pairs: Seq<(Seq<char>, JsonV)>, key: Seq<char>)
    requires
        lookup_pairs(pairs, key) is Some,
    ensures
        exists|i: int|
            0 <= i < pairs.len() && pairs[i].0 == key && pairs[i].1 == lookup_pairs(
                pairs,
                key,
            )->0,
    decreases pairs.len(),
{
    if pairs[0].0 == key {
        assert(pairs[0].0 == key && pairs[0].1 == lookup_pairs(pairs, key)->0);
    } else {
        lemma_lookup_found(pairs.drop_first(), key);
        let i = choose|i: int|
            0 <= i < pairs.drop_first().len() && pairs.drop_first()[i].0 == key
                && pairs.drop_first()[i].1 == lookup_pairs(pairs.drop_first(), key)->0;
        assert(pairs[i + 1].0 == key && pairs[i + 1].1 == lookup_pairs(pairs, key)->0);
    }
}

/// A member value found under a key is strictly smaller than the whole object.
pub proof fn lemma_json_get_size(j: JsonV, key: Seq<char>)
    requires
        json_get(j, key) is Some,
    ensures
        json_size(json_get(j, key)->0) < json_size(j),
{
    let pairs = j->Obj_0;
    lemma_lookup_found(pairs, key);
    let i = choose|i: int|
        0 <= i < pairs.len() && pairs[i].0 == key && pairs[i].1 == lookup_pairs(pairs, key)->0;
    lemma_pair_size(pairs, i);
}

impl Clone for Json {
    /// A deep copy: the clone has the same model as the original.
    fn clone(&self) -> (r: Json)
        ensures
            r@ == self@,
        decreases json_size(self@),
    {
        match self {
            Json::Null => Json::Null,
            Json::Bool(b) => Json::Bool(*b),
            Json::Num(s) => Json::Num(s.clone()),
            Json::Str(s) => Json::Str(s.clone()),
            Json::Arr(items) => {
                let mut out: Vec<Json> = Vec::new();
                let mut i: usize = 0;
                while i < items.len()
                    invariant
                        i <= items@.len(),
                        self@ == JsonV::Arr(jsons_view(items@)),
                        out@.len() == i,
                        forall|k: int| 0 <= k < i ==> #[trigger] json_view(out@[k]) == json_view(
                            items@[k],
                        ),
                    decreases items@.len() - i,
                {
                    proof {
                        lemma_jsons_view_index(items@, i as int);
                        lemma_item_size(jsons_view(items@), i as int);
                    }
                    out.push(items[i].clone());
                    i += 1;
                }
                proof {
                    lemma_jsons_view_len(out@);
                    lemma_jsons_view_len(items@);
                    assert forall|k: int| 0 <= k < items@.len() implies jsons_view(out@)[k]
                        == jsons_view(items@)[k] by {
                        lemma_jsons_view_index(out@, k);
                        lemma_jsons_view_index(items@, k);
                    }
                    assert(jsons_view(out@) =~= jsons_view(items@));
                }
                Json::Arr(out)
            },
            Json::Obj(pairs) => {
                let mut out: Vec<(String, Json)> = Vec::new();
                let mut i: usize = 0;
                while i < pairs.len()
                    invariant
                        i <= pairs@.len(),
                        self@ == JsonV::Obj(jpairs_view(pairs@)),
                        out@.len() == i,
                        forall|k: int|
                            0 <= k < i ==> #[trigger] out@[k].0@ == pairs@[k].0@ && json_view(
                                out@[k].1,
                            ) == json_view(pairs@[k].1),
                    decreases pairs@.len() - i,
                {
                    proof {
                        lemma_jpairs_view_index(pairs@, i as int);
                        lemma_pair_size(jpairs_view(pairs@), i as int);
                    }
                    let p = &pairs[i];
                    out.push((p.0.clone(), p.1.clone()));
                    i += 1;
                }
                proof {
                    lemma_jpairs_view_len(out@);
                    lemma_jpairs_view_len(pairs@);
                    assert forall|k: int| 0 <= k < pairs@.len() implies jpairs_view(out@)[k]
                        == jpairs_view(pairs@)[k] by {
                        lemma_jpairs_view_index(out@, k);
                        lemma_jpairs_view_index(pairs@, k);
                    }
                    assert(jpairs_view(out@) =~= jpairs_view(pairs@));
                }
                Json::Obj(out)
            },
        }
    }
}

/// Relies on `String`'s `FromIterator<char>` impl: collecting characters
/// yields the string made of exactly those characters, in order.
#[verifier::external_body]
pub(crate) fn chars_to_string(chars: &Vec<char>) -> (s: String)
    ensures
        s@ == chars@,
{
    chars.iter().collect()
}

/// Appends the characters of `s` to `out`.
pub(crate) fn write_str(s: &str, out: &mut Vec<char>)
    ensures
        final(out)@ == old(out)@ + s@,
{
    let n: usize = s.unicode_len();
    let mut i: usize = 0;
    while i < n
        invariant
            i <= n,
            n == s@.len(),
            out@ == old(out)@ + s@.subrange(0, i as int),
        decreases n - i,
    {
        out.push(s.get_char(i));
        proof {
            assert(s@.subrange(0, i + 1) =~= s@.subrange(0, i as int).push(s@[i as int]));
        }
        i += 1;
    }
    proof {
        assert(s@.subrange(0, n as int) =~= s@);
    }
}

/// The lowercase hexadecimal digit for `n`.
fn hex_digit(n: u8) -> (c: char)
    requires
        n < 16,
    ensures
        c == hex_digit_char(n as int),
{
    if n == 0 {
        '0'
    } else if n == 1 {
        '1'
    } else if n == 2 {
        '2'
    } else if n == 3 {
        '3'
    } else if n == 4 {
        '4'
    } else if n == 5 {
        '5'
    } else if n == 6 {
        '6'
    } else if n == 7 {
        '7'
    } else if n == 8 {
        '8'
    } else if n == 9 {
        '9'
    } else if n == 10 {
        'a'
    } else if n == 11 {
        'b'
    } else if n == 12 {
        'c'
    } else if n == 13 {
        'd'
    } else if n == 14 {
        'e'
    } else {
        'f'
    }
}

/// Appends the escaped body of a JSON string literal for `s` to `out`.
fn write_escaped(s: &str, out: &mut Vec<char>)
    ensures
        final(out)@ == old(out)@ + escape_text(s@),
{
    let n: usize = s.unicode_len();
    let mut i: usize = 0;
    while i < n
        invariant
            i <= n,
            n == s@.len(),
            out@ == old(out)@ + escape_text(s@.subrange(0, i as int)),
        decreases n - i,
    {
        let c = s.get_char(i);
        if c == '"' {
            out.push('\\');
            out.push('"');
        } else if c == '\\' {
            out.push('\\');
            out.push('\\');
        } else if c == '\u{8}' {
            out.push('\\');
            out.push('b');
        } else if c == '\t' {
            out.push('\\');
            out.push('t');
        } else if c == '\n' {
            out.push('\\');
            out.push('n');
        } else if c == '\u{c}' {
            out.push('\\');
            out.push('f');
        } else if c == '\r' {
            out.push('\\');
            out.push('r');
        } else if (c as u32) < 32 {
            let code: u32 = c as u32;
            out.push('\\');
            out.push('u');
            out.push('0');
            out.push('0');
            out.push(hex_digit((code / 16) as u8));
            out.push(hex_digit((code % 16) as u8));
        } else {
            out.push(c);
        }
        proof {
            assert(s@.subrange(0, i + 1).drop_last() =~= s@.subrange(0, i as int));
            assert(s@.subrange(0, i + 1).last() == s@[i as int]);
            assert(out@ =~= old(out)@ + escape_text(s@.subrange(0, i + 1)));
        }
        i += 1;
    }
    proof {
        assert(s@.subrange(0, n as int) =~= s@);
    }
}

/// Appends the canonical compact rendering of `j` to `out`.
pub fn write_json(j: &Json, out: &mut Vec<char>)
    ensures
        final(out)@ == old(out)@ + json_text(j@),
    decreases json_size(j@),
{
    match j {
        Json::Null => {
            out.push('n');
            out.push('u');
            out.push('l');
            out.push('l');
            proof {
                reveal_strlit("null");
                assert(out@ =~= old(out)@ + "null"@);
            }
        },
        Json::Bool(b) => {
            if *b {
                out.push('t');
                out.push('r');
                out.push('u');
                out.push('e');
                proof {
                    reveal_strlit("true");
                    assert(out@ =~= old(out)@ + "true"@);
                }
            } else {
                out.push('f');
                out.push('a');
                out.push('l');
                out.push('s');
                out.push('e');
                proof {
                    reveal_strlit("false");
                    assert(out@ =~= old(out)@ + "false"@);
                }
            }
        },
        Json::Num(s) => {
            write_str(s.as_str(), out);
        },
        Json::Str(s) => {
            out.push('"');
            write_escaped(s.as_str(), out);
            out.push('"');
            proof {
                assert(out@ =~= old(out)@ + quoted_text(s@));
            }
        },
        Json::Arr(items) => {
            out.push('[');
            let ghost views = jsons_view(items@);
            proof {
                lemma_jsons_view_len(items@);
            }
            let mut i: usize = 0;
            while i < items.len()
                invariant
                    i <= items@.len(),
                    views == jsons_view(items@),
                    views.len() == items@.len(),
                    j@ == JsonV::Arr(views),
                    out@ == old(out)@ + seq!['['] + items_text(views.subrange(0, i as int)),
                decreases items@.len() - i,
            {
                if i > 0 {
                    out.push(',');
                }
                proof {
                    lemma_jsons_view_index(items@, i as int);
                    lemma_item_size(views, i as int);
                }
                write_json(&items[i], out);
                proof {
                    let prefix = views.subrange(0, i + 1);
                    assert(prefix.drop_last() =~= views.subrange(0, i as int));
                    assert(prefix.last() == views[i as int]);
                    assert(out@ =~= old(out)@ + seq!['['] + items_text(prefix));
                }
                i += 1;
            }
            proof {
                assert(views.subrange(0, views.len() as int) =~= views);
            }
            out.push(']');
            proof {
                assert(out@ =~= old(out)@ + json_text(j@));
            }
        },
        Json::Obj(pairs) => {
            out.push('{');
            let ghost views = jpairs_view(pairs@);
            proof {
                lemma_jpairs_view_len(pairs@);
            }
            let mut i: usize = 0;
            while i < pairs.len()
                invariant
                    i <= pairs@.len(),
                    views == jpairs_view(pairs@),
                    views.len() == pairs@.len(),
                    j@ == JsonV::Obj(views),
                    out@ == old(out)@ + seq!['{'] + pairs_text(views.subrange(0, i as int)),
                decreases pairs@.len() - i,
            {
                if i > 0 {
                    out.push(',');
                }
                proof {
                    lemma_jpairs_view_index(pairs@, i as int);
                    lemma_pair_size(views, i as int);
                }
                let ghost entry = out@;
                let p = &pairs[i];
                out.push('"');
                write_escaped(p.0.as_str(), out);
                out.push('"');
                out.push(':');
                proof {
                    assert(out@ =~= entry + quoted_text(views[i as int].0) + seq![':']);
                }
                write_json(&p.1, out);
                proof {
                    assert(out@ =~= entry + pair_text(views[i as int]));
                    let prefix = views.subrange(0, i + 1);
                    assert(prefix.drop_last() =~= views.subrange(0, i as int));
                    assert(prefix.last() == views[i as int]);
                    assert(out@ =~= old(out)@ + seq!['{'] + pairs_text(prefix));
                }
                i += 1;
            }
            proof {
                assert(views.subrange(0, views.len() as int) =~= views);
            }
            out.push('}');
            proof {
                assert(out@ =~= old(out)@ + json_text(j@));
            }
        },
    }
}

/// The canonical compact rendering of `j` as a `String`.
pub fn json_to_string(j: &Json) -> (r: String)
    ensures
        r@ == json_text(j@),
{
    let mut out: Vec<char> = Vec::new();
    write_json(j, &mut out);
    chars_to_string(&out)
}

/// The value under `key` when `j` is an object with such a member.
pub fn json_obj_get<'a>(j: &'a Json, key: &str) -> (r: Option<&'a Json>)
    ensures
        match r {
            Some(v) => json_get(j@, key@) == Some(v@),
            None => json_get(j@, key@) is None,
        },
{
    match j {
        Json::Obj(pairs) => {
            let ghost views = jpairs_view(pairs@);
            proof {
                lemma_jpairs_view_len(pairs@);
            }
            let owned_key: String = key.to_owned();
            proof {
                assert(views.subrange(0, views.len() as int) =~= views);
            }
            let mut i: usize = 0;
            while i < pairs.len()
                invariant
                    i <= pairs@.len(),
                    views == jpairs_view(pairs@),
                    views.len() == pairs@.len(),
                    j@ == JsonV::Obj(views),
                    owned_key@ == key@,
                    lookup_pairs(views, key@) == lookup_pairs(
                        views.subrange(i as int, views.len() as int),
                        key@,
                    ),
                decreases pairs@.len() - i,
            {
                let ghost suffix = views.subrange(i as int, views.len() as int);
                proof {
                    lemma_jpairs_view_index(pairs@, i as int);
                    assert(suffix[0] == views[i as int]);
                    assert(suffix.drop_first() =~= views.subrange(i + 1, views.len() as int));
                }
                let p = &pairs[i];
                if p.0 == owned_key {
                    return Some(&p.1);
                }
                i += 1;
            }
            proof {
                assert(views.subrange(views.len() as int, views.len() as int).len() == 0);
            }
            None
        },
        _ => None,
    }
}

} // verus!
