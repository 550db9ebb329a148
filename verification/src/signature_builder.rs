//! The type-expression model and the signature renderer.
//!
//! A [`Type`] is one decoded type expression; a [`FunctionSig`] is a
//! function's full signature. Both carry a mathematical model ([`TypeV`],
//! [`FunctionSigV`]) over which every rendering contract is stated. The
//! renderer is total: every type expression, the opaque fallback included,
//! has a defined canonical string form.
use vstd::prelude::*;
use crate::json::{Json, JsonV, json_view, json_text, write_str, write_json, chars_to_string};

verus! {

/// A function signature: named parameters in order, an optional return
/// type, and whether the function is C-variadic (the flag is decoded but
/// does not affect rendering).
#[derive(Debug)]
pub struct FunctionSig {
    pub inputs: Vec<(String, Type)>,
    pub output: Option<Type>,
    pub is_c_variadic: bool,
}

/// One type expression. Exactly one variant is active; shapes the decoder
/// does not recognize are preserved verbatim under [`Type::Other`].
#[derive(Debug)]
pub enum Type {
    /// A reference: `&T` / `&mut T`, optionally with a lifetime.
    BorrowedRef { borrowed_ref: BorrowedRefType },
    /// A resolved type name, optionally parameterized: `Vec<T>`.
    ResolvedPath { resolved_path: ResolvedPath },
    /// An unresolved generic placeholder: `T`, `Self`.
    Generic { generic: String },
    /// A built-in scalar type name: `u32`, `str`, `bool`.
    Primitive { primitive: String },
    /// A tuple: `(A, B)`; the empty tuple is the unit type.
    Tuple { tuple: Vec<Type> },
    /// A slice: `[T]`.
    Slice { slice: Box<Type> },
    /// Any unrecognized shape, kept as the original JSON value.
    Other(Json),
}

/// A reference's parts.
#[derive(Debug)]
pub struct BorrowedRefType {
    pub is_mutable: bool,
    pub lifetime: Option<String>,
    pub inner_type: Box<Type>,
}

/// A resolved type name and its optional generic arguments.
#[derive(Debug)]
pub struct ResolvedPath {
    pub name: String,
    pub args: Option<GenericArgs>,
}

/// The generic-argument envelope; only the angle-bracketed style is modeled.
#[derive(Debug)]
pub enum GenericArgs {
    AngleBracketed { angle_bracketed: AngleBracketedArgs },
}

/// The contents of an angle-bracketed argument list: `<T, U, ...>`.
#[derive(Debug)]
pub struct AngleBracketedArgs {
    pub args: Vec<GenericArg>,
    pub constraints: Vec<String>,
}

/// One generic argument; only type arguments are modeled.
#[derive(Debug)]
pub enum GenericArg {
    Type(Box<Type>),
}

/// The mathematical model of a type expression.
pub enum TypeV {
    BorrowedRef { is_mutable: bool, lifetime: Option<Seq<char>>, inner: Box<TypeV> },
    ResolvedPath { name: Seq<char>, args: Option<AngleArgsV> },
    Generic { name: Seq<char> },
    Primitive { name: Seq<char> },
    Tuple { elements: Seq<TypeV> },
    Slice { element: Box<TypeV> },
    Other { raw: JsonV },
}

/// The model of an angle-bracketed argument list.
pub struct AngleArgsV {
    pub args: Seq<TypeV>,
    pub constraints: Seq<Seq<char>>,
}

/// The mathematical model of a function signature.
pub struct FunctionSigV {
    pub inputs: Seq<(Seq<char>, TypeV)>,
    pub output: Option<TypeV>,
    pub is_c_variadic: bool,
}

/// The model of a type expression.
pub open spec fn type_view(t: Type) -> TypeV
    decreases t,
{
    match t {
        Type::BorrowedRef { borrowed_ref } => TypeV::BorrowedRef {
            is_mutable: borrowed_ref.is_mutable,
            lifetime: match borrowed_ref.lifetime {
                Some(l) => Some(l@),
                None => None,
            },
            inner: Box::new(type_view(*borrowed_ref.inner_type)),
        },
        Type::ResolvedPath { resolved_path } => TypeV::ResolvedPath {
            name: resolved_path.name@,
            args: match resolved_path.args {
                Some(ga) => Some(gargs_view(ga)),
                None => None,
            },
        },
        Type::Generic { generic } => TypeV::Generic { name: generic@ },
        Type::Primitive { primitive } => TypeV::Primitive { name: primitive@ },
        Type::Tuple { tuple } => TypeV::Tuple { elements: types_view(tuple@) },
        Type::Slice { slice } => TypeV::Slice { element: Box::new(type_view(*slice)) },
        Type::Other(raw) => TypeV::Other { raw: json_view(raw) },
    }
}

/// The models of a sequence of type expressions.
pub open spec fn types_view(ts: Seq<Type>) -> Seq<TypeV>
    decreases ts,
{
    if ts.len() == 0 {
        Seq::empty()
    } else {
        types_view(ts.drop_last()).push(type_view(ts.last()))
    }
}

/// The model of a generic-argument envelope.
pub open spec fn gargs_view(ga: GenericArgs) -> AngleArgsV
    decreases ga,
{
    match ga {
        GenericArgs::AngleBracketed { angle_bracketed } => AngleArgsV {
            args: garg_list_view(angle_bracketed.args@),
            constraints: strings_view(angle_bracketed.constraints@),
        },
    }
}

/// The models of a sequence of generic arguments.
pub open spec fn garg_list_view(gs: Seq<GenericArg>) -> Seq<TypeV>
    decreases gs,
{
    if gs.len() == 0 {
        Seq::empty()
    } else {
        garg_list_view(gs.drop_last()).push(garg_view(gs.last()))
    }
}

/// The model of one generic argument.
pub open spec fn garg_view(g: GenericArg) -> TypeV
    decreases g,
{
    match g {
        GenericArg::Type(b) => type_view(*b),
    }
}

/// The character sequences of a sequence of strings.
pub open spec fn strings_view(ss: Seq<String>) -> Seq<Seq<char>>
    decreases ss,
{
    if ss.len() == 0 {
        Seq::empty()
    } else {
        strings_view(ss.drop_last()).push(ss.last()@)
    }
}

/// The models of a sequence of named parameters.
pub open spec fn params_view(ps: Seq<(String, Type)>) -> Seq<(Seq<char>, TypeV)>
    decreases ps,
{
    if ps.len() == 0 {
        Seq::empty()
    } else {
        params_view(ps.drop_last()).push((ps.last().0@, type_view(ps.last().1)))
    }
}

impl View for Type {
    type V = TypeV;

    open spec fn view(&self) -> TypeV {
        type_view(*self)
    }
}

impl View for GenericArgs {
    type V = AngleArgsV;

    open spec fn view(&self) -> AngleArgsV {
        gargs_view(*self)
    }
}

impl View for FunctionSig {
    type V = FunctionSigV;

    open spec fn view(&self) -> FunctionSigV {
        FunctionSigV {
            inputs: params_view(self.inputs@),
            output: match self.output {
                Some(t) => Some(type_view(t)),
                None => None,
            },
            is_c_variadic: self.is_c_variadic,
        }
    }
}

/// The canonical rendering of a type expression.
pub open spec fn type_text(t: TypeV) -> Seq<char>
    decreases t,
{
    match t {
        TypeV::BorrowedRef { is_mutable, lifetime, inner } => seq!['&'] + (if is_mutable {
            "mut "@
        } else {
            Seq::empty()
        }) + (match lifetime {
            Some(l) => l + seq![' '],
            None => Seq::empty(),
        }) + type_text(*inner),
        TypeV::ResolvedPath { name, args } => name + (match args {
            Some(a) => angle_args_text(a),
            None => Seq::empty(),
        }),
        TypeV::Generic { name } => name,
        TypeV::Primitive { name } => name,
        TypeV::Tuple { elements } => seq!['('] + types_text(elements) + seq![')'],
        TypeV::Slice { element } => seq!['['] + type_text(*element) + seq![']'],
        TypeV::Other { raw } => "/* unknown: "@ + json_text(raw) + " */"@,
    }
}

/// The rendering of an angle-bracketed argument list; empty when the list
/// itself is empty, so that `Vec<>` never appears.
pub open spec fn angle_args_text(a: AngleArgsV) -> Seq<char>
    decreases a,
{
    if a.args.len() == 0 {
        Seq::empty()
    } else {
        seq!['<'] + types_text(a.args) + seq!['>']
    }
}

/// The comma-and-space-joined renderings of a sequence of type expressions.
pub open spec fn types_text(ts: Seq<TypeV>) -> Seq<char>
    decreases ts,
{
    if ts.len() == 0 {
        Seq::empty()
    } else if ts.len() == 1 {
        type_text(ts[0])
    } else {
        types_text(ts.drop_last()) + ", "@ + type_text(ts.last())
    }
}

/// The rendering of one parameter: `name: type`.
pub open spec fn param_text(p: (Seq<char>, TypeV)) -> Seq<char>
    decreases p,
{
    p.0 + ": "@ + type_text(p.1)
}

/// The comma-and-space-joined renderings of a parameter list.
pub open spec fn params_text(ps: Seq<(Seq<char>, TypeV)>) -> Seq<char>
    decreases ps,
{
    if ps.len() == 0 {
        Seq::empty()
    } else if ps.len() == 1 {
        param_text(ps[0])
    } else {
        params_text(ps.drop_last()) + ", "@ + param_text(ps.last())
    }
}

/// The canonical rendering of the unit type.
pub open spec fn unit_text() -> Seq<char> {
    seq!['(', ')']
}

/// The canonical rendering of a full function signature. A return type is
/// shown only when it is present and does not render as the unit type, so
/// an absent return and an explicit unit return are indistinguishable here.
pub open spec fn sig_text(name: Seq<char>, sig: FunctionSigV) -> Seq<char> {
    "fn "@ + name + seq!['('] + params_text(sig.inputs) + seq![')'] + (match sig.output {
        Some(t) => if type_text(t) == unit_text() {
            Seq::empty()
        } else {
            " -> "@ + type_text(t)
        },
        None => Seq::empty(),
    })
}

/// A signature whose return type is absent and one whose return type is
/// the explicit empty tuple render identically, whatever the name and the
/// parameter list: neither shows an arrow.
pub proof fn lemma_unit_return_equivalence(
    name: Seq<char>,
    inputs: Seq<(Seq<char>, TypeV)>,
    variadic: bool,
)
    ensures
        sig_text(name, FunctionSigV { inputs, output: None, is_c_variadic: variadic }) == sig_text(
            name,
            FunctionSigV {
                inputs,
                output: Some(TypeV::Tuple { elements: Seq::empty() }),
                is_c_variadic: variadic,
            },
        ),
{
    assert(types_text(Seq::<TypeV>::empty()) =~= Seq::<char>::empty());
    assert(type_text(TypeV::Tuple { elements: Seq::empty() }) =~= seq!['('] + Seq::<char>::empty()
        + seq![')']);
    assert(type_text(TypeV::Tuple { elements: Seq::empty() }) =~= unit_text());
}

/// A named path with no generic-argument list, or with an empty one,
/// renders as the bare name: no angle brackets appear.
pub proof fn lemma_empty_generic_args(name: Seq<char>, constraints: Seq<Seq<char>>)
    ensures
        type_text(TypeV::ResolvedPath { name, args: None }) == name,
        type_text(
            TypeV::ResolvedPath {
                name,
                args: Some(AngleArgsV { args: Seq::empty(), constraints }),
            },
        ) == name,
{
    assert(type_text(TypeV::ResolvedPath { name, args: None }) =~= name);
    let a = AngleArgsV { args: Seq::empty(), constraints };
    assert(angle_args_text(a) =~= Seq::<char>::empty());
    assert(type_text(TypeV::ResolvedPath { name, args: Some(a) }) =~= name
        + Seq::<char>::empty());
    assert(type_text(TypeV::ResolvedPath { name, args: Some(a) }) =~= name);
}

/// The number of nodes in a type expression; the renderer's and the
/// decoder's termination measure.
pub open spec fn type_size(t: TypeV) -> nat
    decreases t,
{
    match t {
        TypeV::BorrowedRef { inner, .. } => 1 + type_size(*inner),
        TypeV::ResolvedPath { args, .. } => 1 + (match args {
            Some(a) => types_size(a.args),
            None => 0,
        }),
        TypeV::Generic { .. } => 1,
        TypeV::Primitive { .. } => 1,
        TypeV::Tuple { elements } => 1 + types_size(elements),
        TypeV::Slice { element } => 1 + type_size(*element),
        TypeV::Other { .. } => 1,
    }
}

/// The summed sizes of a sequence of type expressions.
pub open spec fn types_size(ts: Seq<TypeV>) -> nat
    decreases ts,
{
    if ts.len() == 0 {
        0
    } else {
        types_size(ts.drop_last()) + type_size(ts.last())
    }
}

/// Each element's size is bounded by the summed sizes.
pub proof fn lemma_types_size_elem(ts: Seq<TypeV>, i: int)
    requires
        0 <= i < ts.len(),
    ensures
        type_size(ts[i]) <= types_size(ts),
    decreases ts.len(),
{
    if i < ts.len() - 1 {
        lemma_types_size_elem(ts.drop_last(), i);
    }
}

/// `types_view` keeps the sequence's length.
pub proof fn lemma_types_view_len(ts: Seq<Type>)
    ensures
        types_view(ts).len() == ts.len(),
    decreases ts.len(),
{
    if ts.len() > 0 {
        lemma_types_view_len(ts.drop_last());
    }
}

/// `types_view` maps the sequence element by element.
pub proof fn lemma_types_view_index(ts: Seq<Type>, i: int)
    requires
        0 <= i < ts.len(),
    ensures
        types_view(ts).len() == ts.len(),
        types_view(ts)[i] == type_view(ts[i]),
    decreases ts.len(),
{
    lemma_types_view_len(ts);
    lemma_types_view_len(ts.drop_last());
    if i < ts.len() - 1 {
        lemma_types_view_index(ts.drop_last(), i);
    }
}

/// `garg_list_view` keeps the sequence's length.
pub proof fn lemma_garg_list_view_len(gs: Seq<GenericArg>)
    ensures
        garg_list_view(gs).len() == gs.len(),
    decreases gs.len(),
{
    if gs.len() > 0 {
        lemma_garg_list_view_len(gs.drop_last());
    }
}

/// `garg_list_view` maps the sequence element by element.
pub proof fn lemma_garg_list_view_index(gs: Seq<GenericArg>, i: int)
    requires
        0 <= i < gs.len(),
    ensures
        garg_list_view(gs).len() == gs.len(),
        garg_list_view(gs)[i] == garg_view(gs[i]),
    decreases gs.len(),
{
    lemma_garg_list_view_len(gs);
    lemma_garg_list_view_len(gs.drop_last());
    if i < gs.len() - 1 {
        lemma_garg_list_view_index(gs.drop_last(), i);
    }
}

/// `params_view` keeps the sequence's length.
pub proof fn lemma_params_view_len(ps: Seq<(String, Type)>)
    ensures
        params_view(ps).len() == ps.len(),
    decreases ps.len(),
{
    if ps.len() > 0 {
        lemma_params_view_len(ps.drop_last());
    }
}

/// `params_view` maps the sequence element by element.
pub proof fn lemma_params_view_index(ps: Seq<(String, Type)>, i: int)
    requires
        0 <= i < ps.len(),
    ensures
        params_view(ps).len() == ps.len(),
        params_view(ps)[i] == (ps[i].0@, type_view(ps[i].1)),
    decreases ps.len(),
{
    lemma_params_view_len(ps);
    lemma_params_view_len(ps.drop_last());
    if i < ps.len() - 1 {
        lemma_params_view_index(ps.drop_last(), i);
    }
}

/// Appends the canonical rendering of `t` to `out`.
pub fn write_type(t: &Type, out: &mut Vec<char>)
    ensures
        final(out)@ == old(out)@ + type_text(t@),
    decreases type_size(t@), 1int,
{
    match t {
        Type::BorrowedRef { borrowed_ref } => {
            out.push('&');
            if borrowed_ref.is_mutable {
                out.push('m');
                out.push('u');
                out.push('t');
                out.push(' ');
            }
            match &borrowed_ref.lifetime {
                Some(lt) => {
                    write_str(lt.as_str(), out);
                    out.push(' ');
                },
                None => {},
            }
            write_type(&borrowed_ref.inner_type, out);
            proof {
                reveal_strlit("mut ");
                assert(out@ =~= old(out)@ + type_text(t@));
            }
        },
        Type::ResolvedPath { resolved_path } => {
            write_str(resolved_path.name.as_str(), out);
            match &resolved_path.args {
                Some(ga) => {
                    write_generic_args(ga, out);
                },
                None => {},
            }
            proof {
                assert(out@ =~= old(out)@ + type_text(t@));
            }
        },
        Type::Generic { generic } => {
            write_str(generic.as_str(), out);
        },
        Type::Primitive { primitive } => {
            write_str(primitive.as_str(), out);
        },
        Type::Tuple { tuple } => {
            out.push('(');
            let ghost views = types_view(tuple@);
            proof {
                lemma_types_view_len(tuple@);
            }
            let mut i: usize = 0;
            while i < tuple.len()
                invariant
                    i <= tuple@.len(),
                    views == types_view(tuple@),
                    views.len() == tuple@.len(),
                    t@ == (TypeV::Tuple { elements: views }),
                    out@ == old(out)@ + seq!['('] + types_text(views.subrange(0, i as int)),
                decreases tuple@.len() - i,
            {
                if i > 0 {
                    out.push(',');
                    out.push(' ');
                }
                proof {
                    lemma_types_view_index(tuple@, i as int);
                    lemma_types_size_elem(views, i as int);
                }
                write_type(&tuple[i], out);
                proof {
                    reveal_strlit(", ");
                    let prefix = views.subrange(0, i + 1);
                    assert(prefix.drop_last() =~= views.subrange(0, i as int));
                    assert(prefix.last() == views[i as int]);
                    assert(out@ =~= old(out)@ + seq!['('] + types_text(prefix));
                }
                i += 1;
            }
            proof {
                assert(views.subrange(0, views.len() as int) =~= views);
            }
            out.push(')');
            proof {
                assert(out@ =~= old(out)@ + type_text(t@));
            }
        },
        Type::Slice { slice } => {
            out.push('[');
            write_type(slice, out);
            out.push(']');
            proof {
                assert(out@ =~= old(out)@ + type_text(t@));
            }
        },
        Type::Other(raw) => {
            out.push('/');
            out.push('*');
            out.push(' ');
            out.push('u');
            out.push('n');
            out.push('k');
            out.push('n');
            out.push('o');
            out.push('w');
            out.push('n');
            out.push(':');
            out.push(' ');
            write_json(raw, out);
            out.push(' ');
            out.push('*');
            out.push('/');
            proof {
                reveal_strlit("/* unknown: ");
                reveal_strlit(" */");
                assert(out@ =~= old(out)@ + type_text(t@));
            }
        },
    }
}

/// Appends the rendering of a generic-argument list to `out`; appends
/// nothing when the list is empty.
pub fn write_generic_args(ga: &GenericArgs, out: &mut Vec<char>)
    ensures
        final(out)@ == old(out)@ + angle_args_text(ga@),
    decreases types_size(ga@.args) + 1, 0int,
{
    match ga {
        GenericArgs::AngleBracketed { angle_bracketed } => {
            proof {
                lemma_garg_list_view_len(angle_bracketed.args@);
            }
            if angle_bracketed.args.len() == 0 {
                proof {
                    assert(out@ =~= old(out)@ + angle_args_text(ga@));
                }
            } else {
                out.push('<');
                let ghost views = garg_list_view(angle_bracketed.args@);
                let mut i: usize = 0;
                while i < angle_bracketed.args.len()
                    invariant
                        i <= angle_bracketed.args@.len(),
                        views == garg_list_view(angle_bracketed.args@),
                        views.len() == angle_bracketed.args@.len(),
                        ga@ == (AngleArgsV {
                            args: views,
                            constraints: strings_view(angle_bracketed.constraints@),
                        }),
                        out@ == old(out)@ + seq!['<'] + types_text(views.subrange(0, i as int)),
                    decreases angle_bracketed.args@.len() - i,
                {
                    if i > 0 {
                        out.push(',');
                        out.push(' ');
                    }
                    proof {
                        lemma_garg_list_view_index(angle_bracketed.args@, i as int);
                        lemma_types_size_elem(views, i as int);
                    }
                    match &angle_bracketed.args[i] {
                        GenericArg::Type(b) => {
                            write_type(b, out);
                        },
                    }
                    proof {
                        reveal_strlit(", ");
                        let prefix = views.subrange(0, i + 1);
                        assert(prefix.drop_last() =~= views.subrange(0, i as int));
                        assert(prefix.last() == views[i as int]);
                        assert(out@ =~= old(out)@ + seq!['<'] + types_text(prefix));
                    }
                    i += 1;
                }
                proof {
                    assert(views.subrange(0, views.len() as int) =~= views);
                }
                out.push('>');
                proof {
                    assert(out@ =~= old(out)@ + angle_args_text(ga@));
                }
            }
        },
    }
}

/// The canonical rendering of one type expression.
pub fn type_to_string(ty: &Type) -> (r: String)
    ensures
        r@ == type_text(ty@),
{
    let mut out: Vec<char> = Vec::new();
    write_type(ty, &mut out);
    chars_to_string(&out)
}

/// The rendering of a generic-argument list: `<T, U>`, or the empty string
/// when the list is empty.
pub fn generic_args_to_string(args: &GenericArgs) -> (r: String)
    ensures
        r@ == angle_args_text(args@),
{
    let mut out: Vec<char> = Vec::new();
    write_generic_args(args, &mut out);
    chars_to_string(&out)
}

/// The canonical rendering of a full function signature, for a function
/// with the given name.
pub fn function_sig_to_string(name: &str, sig: &FunctionSig) -> (r: String)
    ensures
        r@ == sig_text(name@, sig@),
{
    let mut out: Vec<char> = Vec::new();
    out.push('f');
    out.push('n');
    out.push(' ');
    write_str(name, &mut out);
    out.push('(');
    let ghost pviews = params_view(sig.inputs@);
    proof {
        lemma_params_view_len(sig.inputs@);
        reveal_strlit("fn ");
        assert(out@ =~= "fn "@ + name@ + seq!['(']);
    }
    let mut i: usize = 0;
    while i < sig.inputs.len()
        invariant
            i <= sig.inputs@.len(),
            pviews == params_view(sig.inputs@),
            pviews.len() == sig.inputs@.len(),
            out@ == "fn "@ + name@ + seq!['('] + params_text(pviews.subrange(0, i as int)),
        decreases sig.inputs@.len() - i,
    {
        if i > 0 {
            out.push(',');
            out.push(' ');
        }
        proof {
            lemma_params_view_index(sig.inputs@, i as int);
        }
        let p = &sig.inputs[i];
        write_str(p.0.as_str(), &mut out);
        out.push(':');
        out.push(' ');
        write_type(&p.1, &mut out);
        proof {
            reveal_strlit(", ");
            reveal_strlit(": ");
            let prefix = pviews.subrange(0, i + 1);
            assert(prefix.drop_last() =~= pviews.subrange(0, i as int));
            assert(prefix.last() == pviews[i as int]);
            assert(out@ =~= "fn "@ + name@ + seq!['('] + params_text(prefix));
        }
        i += 1;
    }
    proof {
        assert(pviews.subrange(0, pviews.len() as int) =~= pviews);
    }
    out.push(')');
    match &sig.output {
        Some(out_ty) => {
            let mut rendered: Vec<char> = Vec::new();
            write_type(out_ty, &mut rendered);
            let is_unit: bool = rendered.len() == 2 && rendered[0] == '(' && rendered[1] == ')';
            proof {
                assert(is_unit <==> rendered@ =~= unit_text());
            }
            if !is_unit {
                out.push(' ');
                out.push('-');
                out.push('>');
                out.push(' ');
                proof {
                    reveal_strlit(" -> ");
                    assert(rendered@.subrange(0, 0) =~= Seq::<char>::empty());
                    assert(out@ =~= "fn "@ + name@ + seq!['('] + params_text(pviews) + seq![')']
                        + " -> "@ + rendered@.subrange(0, 0));
                }
                let mut k: usize = 0;
                while k < rendered.len()
                    invariant
                        k <= rendered@.len(),
                        out@ == "fn "@ + name@ + seq!['('] + params_text(pviews) + seq![')']
                            + " -> "@ + rendered@.subrange(0, k as int),
                        rendered@ == type_text(sig@.output->0),
                    decreases rendered@.len() - k,
                {
                    let c = rendered[k];
                    out.push(c);
                    proof {
                        assert(rendered@.subrange(0, k + 1) =~= rendered@.subrange(
                            0,
                            k as int,
                        ).push(rendered@[k as int]));
                    }
                    k += 1;
                }
                proof {
                    reveal_strlit(" -> ");
                    assert(rendered@.subrange(0, rendered@.len() as int) =~= rendered@);
                    assert(out@ =~= sig_text(name@, sig@));
                }
            } else {
                proof {
                    assert(out@ =~= sig_text(name@, sig@));
                }
            }
        },
        None => {
            proof {
                assert(out@ =~= sig_text(name@, sig@));
            }
        },
    }
    chars_to_string(&out)
}

/// Whether `sub` occurs within `t`: it is `t` itself or lies under one of
/// `t`'s recursive fields.
pub open spec fn is_subtree(sub: TypeV, t: TypeV) -> bool
    decreases type_size(t),
    via is_subtree_dec
{
    sub == t || (match t {
        TypeV::BorrowedRef { inner, .. } => is_subtree(sub, *inner),
        TypeV::ResolvedPath { args, .. } => match args {
            Some(a) => exists|i: int|
                0 <= i < a.args.len() && is_subtree(sub, #[trigger] a.args[i]),
            None => false,
        },
        TypeV::Tuple { elements } => exists|i: int|
            0 <= i < elements.len() && is_subtree(sub, #[trigger] elements[i]),
        TypeV::Slice { element } => is_subtree(sub, *element),
        _ => false,
    })
}

#[via_fn]
proof fn is_subtree_dec(sub: TypeV, t: TypeV) {
    match t {
        TypeV::ResolvedPath { args, .. } => match args {
            Some(a) => {
                assert forall|i: int| 0 <= i < a.args.len() implies type_size(#[trigger] a.args[i])
                    <= types_size(a.args) by {
                    lemma_types_size_elem(a.args, i);
                }
            },
            None => {},
        },
        TypeV::Tuple { elements } => {
            assert forall|i: int| 0 <= i < elements.len() implies type_size(
                #[trigger] elements[i],
            ) <= types_size(elements) by {
                lemma_types_size_elem(elements, i);
            }
        },
        _ => {},
    }
}

/// Whether `needle` occurs contiguously within `hay`.
pub open spec fn text_contains(hay: Seq<char>, needle: Seq<char>) -> bool {
    exists|k: int|
        #![trigger hay.subrange(k, k + needle.len() as int)]
        0 <= k && k + needle.len() <= hay.len() && hay.subrange(k, k + needle.len() as int)
            == needle
}

/// Every text contains itself.
pub proof fn lemma_contains_self(x: Seq<char>)
    ensures
        text_contains(x, x),
{
    assert(x.subrange(0, 0 + x.len() as int) =~= x);
}

/// A segment placed between two others is contained in the whole.
pub proof fn lemma_contains_middle(prefix: Seq<char>, x: Seq<char>, suffix: Seq<char>)
    ensures
        text_contains(prefix + x + suffix, x),
{
    let hay = prefix + x + suffix;
    assert(hay.subrange(prefix.len() as int, prefix.len() + x.len() as int) =~= x);
}

/// Containment persists when the haystack is extended on either side.
pub proof fn lemma_contains_extend(
    prefix: Seq<char>,
    hay: Seq<char>,
    suffix: Seq<char>,
    needle: Seq<char>,
)
    requires
        text_contains(hay, needle),
    ensures
        text_contains(prefix + hay + suffix, needle),
{
    let k = choose|k: int|
        #![trigger hay.subrange(k, k + needle.len() as int)]
        0 <= k && k + needle.len() <= hay.len() && hay.subrange(k, k + needle.len() as int)
            == needle;
    assert((prefix + hay + suffix).subrange(
        prefix.len() + k,
        prefix.len() + k + needle.len() as int,
    ) =~= needle);
}

/// Containment is transitive.
pub proof fn lemma_contains_trans(a: Seq<char>, b: Seq<char>, c: Seq<char>)
    requires
        text_contains(a, b),
        text_contains(b, c),
    ensures
        text_contains(a, c),
{
    let k1 = choose|k: int|
        #![trigger a.subrange(k, k + b.len() as int)]
        0 <= k && k + b.len() <= a.len() && a.subrange(k, k + b.len() as int) == b;
    let k2 = choose|k: int|
        #![trigger b.subrange(k, k + c.len() as int)]
        0 <= k && k + c.len() <= b.len() && b.subrange(k, k + c.len() as int) == c;
    assert(a.subrange(k1 + k2, k1 + k2 + c.len() as int) =~= c);
}

/// Each element's rendering occurs in the joined rendering of the list.
pub proof fn lemma_types_text_elem(ts: Seq<TypeV>, i: int)
    requires
        0 <= i < ts.len(),
    ensures
        text_contains(types_text(ts), type_text(ts[i])),
    decreases ts.len(),
{
    if ts.len() == 1 {
        lemma_contains_self(types_text(ts));
    } else if i == ts.len() - 1 {
        lemma_contains_middle(
            types_text(ts.drop_last()) + ", "@,
            type_text(ts.last()),
            Seq::empty(),
        );
        assert(types_text(ts.drop_last()) + ", "@ + type_text(ts.last()) + Seq::<char>::empty()
            =~= types_text(ts));
    } else {
        lemma_types_text_elem(ts.drop_last(), i);
        lemma_contains_extend(
            Seq::empty(),
            types_text(ts.drop_last()),
            ", "@ + type_text(ts.last()),
            type_text(ts[i]),
        );
        assert(Seq::<char>::empty() + types_text(ts.drop_last()) + (", "@ + type_text(ts.last()))
            =~= types_text(ts));
    }
}

/// The rendering of any subtree of a type expression, the opaque marker
/// included, occurs verbatim within the rendering of the whole
/// expression.
pub proof fn lemma_subtree_containment(sub: TypeV, t: TypeV)
    requires
        is_subtree(sub, t),
    ensures
        text_contains(type_text(t), type_text(sub)),
    decreases type_size(t),
{
    if sub == t {
        lemma_contains_self(type_text(t));
    } else {
        match t {
            TypeV::BorrowedRef { is_mutable, lifetime, inner } => {
                let mutpart: Seq<char> = if is_mutable {
                    "mut "@
                } else {
                    Seq::empty()
                };
                let ltpart: Seq<char> = match lifetime {
                    Some(l) => l + seq![' '],
                    None => Seq::empty(),
                };
                lemma_subtree_containment(sub, *inner);
                lemma_contains_extend(
                    seq!['&'] + mutpart + ltpart,
                    type_text(*inner),
                    Seq::empty(),
                    type_text(sub),
                );
                assert(seq!['&'] + mutpart + ltpart + type_text(*inner) + Seq::<char>::empty()
                    =~= type_text(t));
            },
            TypeV::ResolvedPath { name, args } => {
                let a = args->0;
                let i = choose|i: int| 0 <= i < a.args.len() && is_subtree(sub, #[trigger] a.args[i]);
                lemma_types_size_elem(a.args, i);
                lemma_subtree_containment(sub, a.args[i]);
                lemma_types_text_elem(a.args, i);
                lemma_contains_trans(types_text(a.args), type_text(a.args[i]), type_text(sub));
                lemma_contains_extend(
                    name + seq!['<'],
                    types_text(a.args),
                    seq!['>'],
                    type_text(sub),
                );
                assert(angle_args_text(a) =~= seq!['<'] + types_text(a.args) + seq!['>']);
                assert(type_text(t) == name + angle_args_text(a));
                assert(name + seq!['<'] + types_text(a.args) + seq!['>'] =~= type_text(t));
            },
            TypeV::Tuple { elements } => {
                let i = choose|i: int|
                    0 <= i < elements.len() && is_subtree(sub, #[trigger] elements[i]);
                lemma_types_size_elem(elements, i);
                lemma_subtree_containment(sub, elements[i]);
                lemma_types_text_elem(elements, i);
                lemma_contains_trans(types_text(elements), type_text(elements[i]), type_text(sub));
                lemma_contains_extend(seq!['('], types_text(elements), seq![')'], type_text(sub));
                assert(seq!['('] + types_text(elements) + seq![')'] =~= type_text(t));
            },
            TypeV::Slice { element } => {
                lemma_subtree_containment(sub, *element);
                lemma_contains_extend(seq!['['], type_text(*element), seq![']'], type_text(sub));
                assert(seq!['['] + type_text(*element) + seq![']'] =~= type_text(t));
            },
            _ => {},
        }
    }
}

/// A type expression with an opaque subtree still renders as one
/// well-formed string, and the opaque marker, with the original JSON text
/// inside it, occurs verbatim in that string.
pub proof fn lemma_opaque_containment(raw: JsonV, t: TypeV)
    requires
        is_subtree(TypeV::Other { raw }, t),
    ensures
        text_contains(type_text(t), "/* unknown: "@ + json_text(raw) + " */"@),
{
    lemma_subtree_containment(TypeV::Other { raw }, t);
}

} // verus!
