//! Intermediate representation for TypeScript declarations.
//!
//! The IR sits between the parsed TypeScript declarations and the
//! generated Rust bindings. Every exec type here comes with a view: a
//! mathematical value (`TyV`, `ParamV`, ...) over which contracts are stated.

use std::collections::HashMap;
use std::path::PathBuf;

use vstd::prelude::*;

use crate::context::TypeId;
use crate::scope::ScopeId;
use crate::text::{push_chars, push_str, string_of};

verus! {

// ─── Module context ──────────────────────────────────────────────────

/// Where a declaration lives: a global ambient declaration, or inside a
/// specific JS module (by its specifier).
#[derive(Clone, Debug, PartialEq, Eq, Hash)]
pub enum ModuleContext {
    /// No `module=` attribute; accessed as a global.
    Global,
    /// From a specific JS module specifier (e.g. `"cloudflare:sockets"`).
    Module(String),
}

// ─── Type references ─────────────────────────────────────────────────

/// A reference to a TypeScript type.
///
/// Only the syntactic constructs of the TS grammar get dedicated
/// variants; every named type (built-in classes, `Promise<T>`, user
/// types, qualified paths) is a `Reference`, resolved later against the
/// scope chain. `T[]` (`Array`) and `Array<T>` (a `Reference`) differ.
#[derive(Debug)]
pub enum TypeRef {
    Boolean,
    Number,
    String,
    BigInt,
    Void,
    Undefined,
    Null,
    Any,
    Unknown,
    Object,
    /// JS `symbol`.
    Symbol,
    /// The TS-only `ArrayBufferView` union alias.
    ArrayBufferView,
    /// `T[]`.
    Array(Box<TypeRef>),
    /// `T | null` / `T | undefined` / `T?`.
    Nullable(Box<TypeRef>),
    Union(Vec<TypeRef>),
    Intersection(Vec<TypeRef>),
    Tuple(Vec<TypeRef>),
    /// `(args) => ret`.
    Function(FunctionSig),
    StringLiteral(String),
    /// A numeric literal type, held as the text JS renders for the number.
    NumberLiteral(String),
    BooleanLiteral(bool),
    /// A (possibly qualified) name with a (possibly empty) argument list:
    /// `Foo`, `Foo<T>`, `A.B.C`, `A.B.C<T>`.
    Reference { segments: Vec<String>, generic_args: Vec<TypeRef> },
    /// A construct that cannot be represented (conditional, mapped, ...).
    Unresolved(String),
}

#[derive(Debug)]
pub struct FunctionSig {
    pub params: Vec<Param>,
    pub return_type: Box<TypeRef>,
}

#[derive(Debug)]
pub struct Param {
    pub name: String,
    pub type_ref: TypeRef,
    pub optional: bool,
    pub variadic: bool,
}

/// The mathematical value of a `TypeRef`.
pub enum TyV {
    Boolean,
    Number,
    String,
    BigInt,
    Void,
    Undefined,
    Null,
    Any,
    Unknown,
    Object,
    Symbol,
    ArrayBufferView,
    Array(Box<TyV>),
    Nullable(Box<TyV>),
    Union(Seq<TyV>),
    Intersection(Seq<TyV>),
    Tuple(Seq<TyV>),
    Function(Seq<ParamV>, Box<TyV>),
    StringLiteral(Seq<char>),
    NumberLiteral(Seq<char>),
    BooleanLiteral(bool),
    Reference(Seq<Seq<char>>, Seq<TyV>),
    Unresolved(Seq<char>),
}

/// The mathematical value of a `Param`.
pub struct ParamV {
    pub name: Seq<char>,
    pub ty: TyV,
    pub optional: bool,
    pub variadic: bool,
}

pub open spec fn ty_view(t: TypeRef) -> TyV
    decreases t,
{
    match t {
        TypeRef::Boolean => TyV::Boolean,
        TypeRef::Number => TyV::Number,
        TypeRef::String => TyV::String,
        TypeRef::BigInt => TyV::BigInt,
        TypeRef::Void => TyV::Void,
        TypeRef::Undefined => TyV::Undefined,
        TypeRef::Null => TyV::Null,
        TypeRef::Any => TyV::Any,
        TypeRef::Unknown => TyV::Unknown,
        TypeRef::Object => TyV::Object,
        TypeRef::Symbol => TyV::Symbol,
        TypeRef::ArrayBufferView => TyV::ArrayBufferView,
        TypeRef::Array(b) => TyV::Array(Box::new(ty_view(*b))),
        TypeRef::Nullable(b) => TyV::Nullable(Box::new(ty_view(*b))),
        TypeRef::Union(v) => TyV::Union(tys_view(v@)),
        TypeRef::Intersection(v) => TyV::Intersection(tys_view(v@)),
        TypeRef::Tuple(v) => TyV::Tuple(tys_view(v@)),
        TypeRef::Function(sig) => TyV::Function(
            params_view(sig.params@),
            Box::new(ty_view(*sig.return_type)),
        ),
        TypeRef::StringLiteral(s) => TyV::StringLiteral(s@),
        TypeRef::NumberLiteral(s) => TyV::NumberLiteral(s@),
        TypeRef::BooleanLiteral(b) => TyV::BooleanLiteral(b),
        TypeRef::Reference { segments, generic_args } => TyV::Reference(
            segments@.map_values(|s: String| s@),
            tys_view(generic_args@),
        ),
        TypeRef::Unresolved(s) => TyV::Unresolved(s@),
    }
}

pub open spec fn tys_view(s: Seq<TypeRef>) -> Seq<TyV>
    decreases s,
{
    if s.len() == 0 {
        seq![]
    } else {
        tys_view(s.drop_last()).push(ty_view(s.last()))
    }
}

pub open spec fn param_view(p: Param) -> ParamV
    decreases p,
{
    ParamV { name: p.name@, ty: ty_view(p.type_ref), optional: p.optional, variadic: p.variadic }
}

pub open spec fn params_view(s: Seq<Param>) -> Seq<ParamV>
    decreases s,
{
    if s.len() == 0 {
        seq![]
    } else {
        params_view(s.drop_last()).push(param_view(s.last()))
    }
}

impl View for TypeRef {
    type V = TyV;

    open spec fn view(&self) -> TyV {
        ty_view(*self)
    }
}

impl View for Param {
    type V = ParamV;

    open spec fn view(&self) -> ParamV {
        param_view(*self)
    }
}


/// A structural copy of a type.
pub fn copy_ty(t: &TypeRef) -> (r: TypeRef)
    ensures
        r@ == t@,
    decreases t,
{
    match t {
        TypeRef::Boolean => TypeRef::Boolean,
        TypeRef::Number => TypeRef::Number,
        TypeRef::String => TypeRef::String,
        TypeRef::BigInt => TypeRef::BigInt,
        TypeRef::Void => TypeRef::Void,
        TypeRef::Undefined => TypeRef::Undefined,
        TypeRef::Null => TypeRef::Null,
        TypeRef::Any => TypeRef::Any,
        TypeRef::Unknown => TypeRef::Unknown,
        TypeRef::Object => TypeRef::Object,
        TypeRef::Symbol => TypeRef::Symbol,
        TypeRef::ArrayBufferView => TypeRef::ArrayBufferView,
        TypeRef::Array(b) => TypeRef::Array(Box::new(copy_ty(b))),
        TypeRef::Nullable(b) => TypeRef::Nullable(Box::new(copy_ty(b))),
        TypeRef::Union(v) => TypeRef::Union(copy_tys(v)),
        TypeRef::Intersection(v) => TypeRef::Intersection(copy_tys(v)),
        TypeRef::Tuple(v) => TypeRef::Tuple(copy_tys(v)),
        TypeRef::Function(sig) => TypeRef::Function(
            FunctionSig {
                params: copy_params(&sig.params),
                return_type: Box::new(copy_ty(&sig.return_type)),
            },
        ),
        TypeRef::StringLiteral(x) => TypeRef::StringLiteral(x.clone()),
        TypeRef::NumberLiteral(x) => TypeRef::NumberLiteral(x.clone()),
        TypeRef::BooleanLiteral(b) => TypeRef::BooleanLiteral(*b),
        TypeRef::Reference { segments, generic_args } => TypeRef::Reference {
            segments: copy_strings(segments),
            generic_args: copy_tys(generic_args),
        },
        TypeRef::Unresolved(x) => TypeRef::Unresolved(x.clone()),
    }
}

/// A structural copy of a list of types.
pub fn copy_tys(v: &Vec<TypeRef>) -> (r: Vec<TypeRef>)
    ensures
        tys_view(r@) == tys_view(v@),
        r@.len() == v@.len(),
    decreases v,
{
    let mut r: Vec<TypeRef> = Vec::new();
    let mut i: usize = 0;
    while i < v.len()
        invariant
            i <= v.len(),
            r@.len() == i,
            tys_view(r@) == tys_view(v@.take(i as int)),
        decreases v.len() - i,
    {
        assert(decreases_to!(v => v@[i as int]));
        let t = copy_ty(&v[i]);
        let ghost before = r@;
        r.push(t);
        assert(r@.drop_last() =~= before);
        assert(v@.take(i + 1).drop_last() =~= v@.take(i as int));
        i = i + 1;
    }
    assert(v@.take(v@.len() as int) =~= v@);
    r
}

/// A copy of a list of parameters.
pub fn copy_params(v: &Vec<Param>) -> (r: Vec<Param>)
    ensures
        params_view(r@) == params_view(v@),
        r@.len() == v@.len(),
    decreases v,
{
    let mut r: Vec<Param> = Vec::new();
    let mut i: usize = 0;
    while i < v.len()
        invariant
            i <= v.len(),
            r@.len() == i,
            params_view(r@) == params_view(v@.take(i as int)),
        decreases v.len() - i,
    {
        assert(decreases_to!(v => v@[i as int]));
        let p = &v[i];
        let q = Param {
            name: p.name.clone(),
            type_ref: copy_ty(&p.type_ref),
            optional: p.optional,
            variadic: p.variadic,
        };
        assert(q@ == p@);
        let ghost before = r@;
        r.push(q);
        assert(r@.drop_last() =~= before);
        assert(v@.take(i + 1).drop_last() =~= v@.take(i as int));
        i = i + 1;
    }
    assert(v@.take(v@.len() as int) =~= v@);
    r
}

/// A copy of a list of strings.
pub fn copy_strings(v: &Vec<String>) -> (r: Vec<String>)
    ensures
        r@.map_values(|s: String| s@) == v@.map_values(|s: String| s@),
{
    let mut r: Vec<String> = Vec::new();
    let mut i: usize = 0;
    while i < v.len()
        invariant
            i <= v.len(),
            r@.len() == i,
            r@.map_values(|s: String| s@) == v@.take(i as int).map_values(|s: String| s@),
        decreases v.len() - i,
    {
        let c = v[i].clone();
        assert(c@ == v@[i as int]@);
        let ghost before = r@;
        r.push(c);
        assert(r@ =~= before.push(c));
        assert forall|k: int| 0 <= k < i + 1 implies #[trigger] r@[k]@ == v@[k]@ by {
            if k < i {
                assert(before.map_values(|s: String| s@)[k] == v@.take(i as int).map_values(
                    |s: String| s@,
                )[k]);
            }
        }
        assert(r@.map_values(|s: String| s@) =~= v@.take(i + 1).map_values(|s: String| s@));
        i = i + 1;
    }
    assert(v@.take(v@.len() as int) =~= v@);
    r
}

impl Clone for TypeRef {
    fn clone(&self) -> (r: Self)
        ensures
            r@ == self@,
    {
        copy_ty(self)
    }
}

impl Clone for Param {
    fn clone(&self) -> (r: Self)
        ensures
            r@ == self@,
    {
        Param {
            name: self.name.clone(),
            type_ref: copy_ty(&self.type_ref),
            optional: self.optional,
            variadic: self.variadic,
        }
    }
}

impl Clone for FunctionSig {
    fn clone(&self) -> (r: Self)
        ensures
            params_view(r.params@) == params_view(self.params@),
            r.return_type@ == self.return_type@,
    {
        FunctionSig {
            params: copy_params(&self.params),
            return_type: Box::new(copy_ty(&self.return_type)),
        }
    }
}


/// `parts` joined with `sep` between consecutive parts.
pub open spec fn join(parts: Seq<Seq<char>>, sep: Seq<char>) -> Seq<char>
    decreases parts.len(),
{
    if parts.len() == 0 {
        seq![]
    } else if parts.len() == 1 {
        parts[0]
    } else {
        join(parts.drop_last(), sep) + sep + parts.last()
    }
}

/// TypeScript-like rendering of a type: primitives as their lowercase
/// keywords, `Foo<T1, T2>`, `A | B`, `A & B`, `[A, B]`, `(x: T) => R`,
/// `T[]` with composite element types parenthesized.
pub open spec fn fmt_ts(t: TyV) -> Seq<char>
    decreases t,
{
    match t {
        TyV::Boolean => "boolean"@,
        TyV::Number => "number"@,
        TyV::String => "string"@,
        TyV::BigInt => "bigint"@,
        TyV::Void => "void"@,
        TyV::Undefined => "undefined"@,
        TyV::Null => "null"@,
        TyV::Any => "any"@,
        TyV::Unknown => "unknown"@,
        TyV::Object => "object"@,
        TyV::Symbol => "symbol"@,
        TyV::ArrayBufferView => "ArrayBufferView"@,
        TyV::Array(inner) => {
            if inner_needs_parens(*inner) {
                "("@ + fmt_ts(*inner) + ")[]"@
            } else {
                fmt_ts(*inner) + "[]"@
            }
        },
        TyV::Nullable(inner) => fmt_ts(*inner) + " | null"@,
        TyV::Union(ms) => join(fmt_all(ms), " | "@),
        TyV::Intersection(ms) => join(fmt_all(ms), " & "@),
        TyV::Tuple(ms) => "["@ + join(fmt_all(ms), ", "@) + "]"@,
        TyV::Function(ps, ret) => "("@ + join(fmt_params(ps), ", "@) + ") => "@ + fmt_ts(*ret),
        TyV::StringLiteral(s) => "\""@ + s + "\""@,
        TyV::NumberLiteral(s) => s,
        TyV::BooleanLiteral(b) => if b {
            "true"@
        } else {
            "false"@
        },
        TyV::Reference(segs, args) => if args.len() == 0 {
            join(segs, "."@)
        } else {
            join(segs, "."@) + "<"@ + join(fmt_all(args), ", "@) + ">"@
        },
        TyV::Unresolved(s) => s,
    }
}

/// An array element type that must be parenthesized before `[]`.
pub open spec fn inner_needs_parens(t: TyV) -> bool {
    t is Union || t is Intersection || t is Nullable
}

pub open spec fn fmt_all(s: Seq<TyV>) -> Seq<Seq<char>>
    decreases s,
{
    if s.len() == 0 {
        seq![]
    } else {
        fmt_all(s.drop_last()).push(fmt_ts(s.last()))
    }
}

pub open spec fn fmt_param(p: ParamV) -> Seq<char>
    decreases p,
{
    (if p.variadic {
        "..."@
    } else {
        seq![]
    }) + p.name + (if p.optional {
        "?"@
    } else {
        seq![]
    }) + ": "@ + fmt_ts(p.ty)
}

pub open spec fn fmt_params(s: Seq<ParamV>) -> Seq<Seq<char>>
    decreases s,
{
    if s.len() == 0 {
        seq![]
    } else {
        fmt_params(s.drop_last()).push(fmt_param(s.last()))
    }
}

pub proof fn lemma_tys_view(s: Seq<TypeRef>)
    ensures
        tys_view(s).len() == s.len(),
        forall|i: int| 0 <= i < s.len() ==> #[trigger] tys_view(s)[i] == ty_view(s[i]),
    decreases s.len(),
{
    if s.len() > 0 {
        lemma_tys_view(s.drop_last());
    }
}

pub proof fn lemma_params_view(s: Seq<Param>)
    ensures
        params_view(s).len() == s.len(),
        forall|i: int| 0 <= i < s.len() ==> #[trigger] params_view(s)[i] == param_view(s[i]),
    decreases s.len(),
{
    if s.len() > 0 {
        lemma_params_view(s.drop_last());
    }
}

pub proof fn lemma_fmt_all(s: Seq<TyV>)
    ensures
        fmt_all(s).len() == s.len(),
        forall|i: int| 0 <= i < s.len() ==> #[trigger] fmt_all(s)[i] == fmt_ts(s[i]),
    decreases s.len(),
{
    if s.len() > 0 {
        lemma_fmt_all(s.drop_last());
    }
}

pub proof fn lemma_fmt_params(s: Seq<ParamV>)
    ensures
        fmt_params(s).len() == s.len(),
        forall|i: int| 0 <= i < s.len() ==> #[trigger] fmt_params(s)[i] == fmt_param(s[i]),
    decreases s.len(),
{
    if s.len() > 0 {
        lemma_fmt_params(s.drop_last());
    }
}

/// Rendering the types of `v[..i+1]` adds the rendering of `v[i]`.
proof fn lemma_fmt_types_step(v: Seq<TypeRef>, i: int)
    requires
        0 <= i < v.len(),
    ensures
        fmt_all(tys_view(v.take(i + 1))) == fmt_all(tys_view(v.take(i))).push(fmt_ts(ty_view(v[i]))),
{
    lemma_tys_view(v.take(i + 1));
    lemma_tys_view(v.take(i));
    lemma_fmt_all(tys_view(v.take(i + 1)));
    lemma_fmt_all(tys_view(v.take(i)));
    assert(fmt_all(tys_view(v.take(i + 1))) =~= fmt_all(tys_view(v.take(i))).push(
        fmt_ts(ty_view(v[i])),
    ));
}

/// Rendering the parameters `v[..i+1]` adds the rendering of `v[i]`.
proof fn lemma_fmt_params_step(v: Seq<Param>, i: int)
    requires
        0 <= i < v.len(),
    ensures
        fmt_params(params_view(v.take(i + 1))) == fmt_params(params_view(v.take(i))).push(
            fmt_param(param_view(v[i])),
        ),
{
    lemma_params_view(v.take(i + 1));
    lemma_params_view(v.take(i));
    lemma_fmt_params(params_view(v.take(i + 1)));
    lemma_fmt_params(params_view(v.take(i)));
    assert(fmt_params(params_view(v.take(i + 1))) =~= fmt_params(params_view(v.take(i))).push(
        fmt_param(param_view(v[i])),
    ));
}

/// `join` of one more part.
pub proof fn lemma_join_push(parts: Seq<Seq<char>>, sep: Seq<char>, p: Seq<char>)
    ensures
        join(parts.push(p), sep) == if parts.len() == 0 {
            p
        } else {
            join(parts, sep) + sep + p
        },
{
    assert(parts.push(p).drop_last() =~= parts);
}

/// Append `join(fmt_all(v), sep)` to `out`.
fn write_joined(v: &Vec<TypeRef>, sep: &str, out: &mut Vec<char>)
    ensures
        final(out)@ == old(out)@ + join(fmt_all(tys_view(v@)), sep@),
    decreases v, 0nat,
{
    let ghost start = out@;
    let mut i: usize = 0;
    while i < v.len()
        invariant
            i <= v.len(),
            out@ == start + join(fmt_all(tys_view(v@.take(i as int))), sep@),
        decreases v.len() - i,
    {
        assert(decreases_to!(v => v@[i as int]));
        let ghost prev = fmt_all(tys_view(v@.take(i as int)));
        proof {
            lemma_fmt_types_step(v@, i as int);
        }
        proof {
            lemma_join_push(prev, sep@, fmt_ts(v@[i as int]@));
        }
        if i > 0 {
            push_str(out, sep);
        }
        v[i].write_ts(out);
        assert(out@ =~= start + join(fmt_all(tys_view(v@.take(i + 1))), sep@));
        i = i + 1;
    }
    assert(v@.take(v@.len() as int) =~= v@);
}

/// Append `join(segments, ".")` to `out`.
fn write_path(segments: &Vec<String>, out: &mut Vec<char>)
    ensures
        final(out)@ == old(out)@ + join(segments@.map_values(|s: String| s@), "."@),
{
    let ghost start = out@;
    let ghost segs = segments@.map_values(|s: String| s@);
    let mut i: usize = 0;
    while i < segments.len()
        invariant
            i <= segments.len(),
            segs == segments@.map_values(|s: String| s@),
            out@ == start + join(segs.take(i as int), "."@),
        decreases segments.len() - i,
    {
        proof {
            lemma_join_push(segs.take(i as int), "."@, segs[i as int]);
            assert(segs.take(i + 1) =~= segs.take(i as int).push(segs[i as int]));
        }
        if i > 0 {
            push_str(out, ".");
        }
        push_str(out, segments[i].as_str());
        assert(out@ =~= start + join(segs.take(i + 1), "."@));
        i = i + 1;
    }
    assert(segs.take(segs.len() as int) =~= segs);
}

/// Append `join(fmt_params(params), ", ")` to `out`.
fn write_params(v: &Vec<Param>, out: &mut Vec<char>)
    ensures
        final(out)@ == old(out)@ + join(fmt_params(params_view(v@)), ", "@),
    decreases v, 0nat,
{
    let ghost start = out@;
    let mut i: usize = 0;
    while i < v.len()
        invariant
            i <= v.len(),
            out@ == start + join(fmt_params(params_view(v@.take(i as int))), ", "@),
        decreases v.len() - i,
    {
        assert(decreases_to!(v => v@[i as int]));
        let ghost prev = fmt_params(params_view(v@.take(i as int)));
        let p = &v[i];
        proof {
            lemma_fmt_params_step(v@, i as int);
        }
        proof {
            lemma_join_push(prev, ", "@, fmt_param(p@));
        }
        if i > 0 {
            push_str(out, ", ");
        }
        let ghost before_p = out@;
        if p.variadic {
            push_str(out, "...");
        }
        push_str(out, p.name.as_str());
        if p.optional {
            push_str(out, "?");
        }
        push_str(out, ": ");
        assert(decreases_to!(p => p.type_ref));
        p.type_ref.write_ts(out);
        assert(out@ =~= before_p + fmt_param(p@));
        assert(out@ =~= start + join(fmt_params(params_view(v@.take(i + 1))), ", "@));
        i = i + 1;
    }
    assert(v@.take(v@.len() as int) =~= v@);
}

impl TypeRef {
    /// A single-segment, non-generic reference: `Foo`.
    pub fn ident(name: &str) -> (r: TypeRef)
        ensures
            r@ == TyV::Reference(seq![name@], Seq::<TyV>::empty()),
    {
        let mut segments: Vec<String> = Vec::new();
        segments.push(name.to_string());
        let args: Vec<TypeRef> = Vec::new();
        proof {
            lemma_tys_view(args@);
        }
        assert(tys_view(args@) =~= Seq::<TyV>::empty());
        assert(segments@.map_values(|s: String| s@) =~= seq![name@]);
        let r = TypeRef::Reference { segments, generic_args: args };
        r
    }

    /// A single-segment generic instantiation: `head<T1, T2, ...>`.
    pub fn generic(head: &str, generic_args: Vec<TypeRef>) -> (r: TypeRef)
        ensures
            r@ == TyV::Reference(seq![head@], tys_view(generic_args@)),
    {
        let mut segments: Vec<String> = Vec::new();
        segments.push(head.to_string());
        assert(segments@.map_values(|s: String| s@) =~= seq![head@]);
        let r = TypeRef::Reference { segments, generic_args };
        r
    }

    /// The ident of a bare reference (single segment, no type arguments).
    pub fn as_ident(&self) -> (r: Option<&str>)
        ensures
            match self@ {
                TyV::Reference(segs, args) => if segs.len() == 1 && args.len() == 0 {
                    r is Some && r->0@ == segs[0]
                } else {
                    r is None
                },
                _ => r is None,
            },
    {
        match self {
            TypeRef::Reference { segments, generic_args } => {
                proof {
                    lemma_tys_view(generic_args@);
                }
                if segments.len() == 1 && generic_args.len() == 0 {
                    Some(segments[0].as_str())
                } else {
                    None
                }
            },
            _ => None,
        }
    }

    /// The type arguments of a non-empty generic instantiation of the
    /// single-segment head `name` (e.g. `"Promise"`, `"Map"`).
    pub fn as_generic_head(&self, name: &str) -> (r: Option<&[TypeRef]>)
        ensures
            match self@ {
                TyV::Reference(segs, args) => if segs.len() == 1 && segs[0] == name@ && args.len()
                    > 0 {
                    r is Some && tys_view(r->0@) == args
                } else {
                    r is None
                },
                _ => r is None,
            },
    {
        match self {
            TypeRef::Reference { segments, generic_args } => {
                proof {
                    lemma_tys_view(generic_args@);
                }
                if segments.len() == 1 && crate::text::str_eq(segments[0].as_str(), name)
                    && generic_args.len() > 0 {
                    Some(generic_args.as_slice())
                } else {
                    None
                }
            },
            _ => None,
        }
    }

    /// `Promise<T>` gives `T`.
    pub fn as_promise_inner(&self) -> (r: Option<&TypeRef>)
        ensures
            match self@ {
                TyV::Reference(segs, args) => if segs.len() == 1 && segs[0] == "Promise"@
                    && args.len() > 0 {
                    r is Some && r->0@ == args[0]
                } else {
                    r is None
                },
                _ => r is None,
            },
    {
        let args = self.as_generic_head("Promise")?;
        proof {
            lemma_tys_view(args@);
        }
        args.first()
    }

    /// Append the TypeScript rendering of this type to `out`.
    pub fn write_ts(&self, out: &mut Vec<char>)
        ensures
            final(out)@ == old(out)@ + fmt_ts(self@),
        decreases self, 1nat,
    {
        let ghost start = out@;
        match self {
            TypeRef::Boolean => push_str(out, "boolean"),
            TypeRef::Number => push_str(out, "number"),
            TypeRef::String => push_str(out, "string"),
            TypeRef::BigInt => push_str(out, "bigint"),
            TypeRef::Void => push_str(out, "void"),
            TypeRef::Undefined => push_str(out, "undefined"),
            TypeRef::Null => push_str(out, "null"),
            TypeRef::Any => push_str(out, "any"),
            TypeRef::Unknown => push_str(out, "unknown"),
            TypeRef::Object => push_str(out, "object"),
            TypeRef::Symbol => push_str(out, "symbol"),
            TypeRef::ArrayBufferView => push_str(out, "ArrayBufferView"),
            TypeRef::Array(inner) => {
                let needs_parens = match &**inner {
                    TypeRef::Union(_) | TypeRef::Intersection(_) | TypeRef::Nullable(_) => true,
                    _ => false,
                };
                if needs_parens {
                    push_str(out, "(");
                    inner.write_ts(out);
                    push_str(out, ")[]");
                } else {
                    inner.write_ts(out);
                    push_str(out, "[]");
                }
                assert(out@ =~= start + fmt_ts(self@));
            },
            TypeRef::Nullable(inner) => {
                inner.write_ts(out);
                push_str(out, " | null");
                assert(out@ =~= start + fmt_ts(self@));
            },
            TypeRef::Union(members) => {
                write_joined(members, " | ", out);
            },
            TypeRef::Intersection(parts) => {
                write_joined(parts, " & ", out);
            },
            TypeRef::Tuple(elems) => {
                push_str(out, "[");
                write_joined(elems, ", ", out);
                push_str(out, "]");
                assert(out@ =~= start + fmt_ts(self@));
            },
            TypeRef::Function(sig) => {
                push_str(out, "(");
                write_params(&sig.params, out);
                push_str(out, ") => ");
                sig.return_type.write_ts(out);
                assert(out@ =~= start + fmt_ts(self@));
            },
            TypeRef::StringLiteral(s) => {
                push_str(out, "\"");
                push_str(out, s.as_str());
                push_str(out, "\"");
                assert(out@ =~= start + fmt_ts(self@));
            },
            TypeRef::NumberLiteral(s) => push_str(out, s.as_str()),
            TypeRef::BooleanLiteral(b) => {
                if *b {
                    push_str(out, "true");
                } else {
                    push_str(out, "false");
                }
            },
            TypeRef::Reference { segments, generic_args } => {
                write_path(segments, out);
                if generic_args.len() > 0 {
                    push_str(out, "<");
                    write_joined(generic_args, ", ", out);
                    push_str(out, ">");
                }
                assert(out@ =~= start + fmt_ts(self@));
            },
            TypeRef::Unresolved(s) => push_str(out, s.as_str()),
        }
    }

    /// Render this type back into a TypeScript-like string; see `fmt_ts`.
    pub fn format_ts(&self) -> (r: String)
        ensures
            r@ == fmt_ts(self@),
    {
        let mut out: Vec<char> = Vec::new();
        self.write_ts(&mut out);
        assert(out@ =~= fmt_ts(self@));
        string_of(&out)
    }
}


// ─── Structural equality ─────────────────────────────────────────────

/// Equality of two string lists by content.
fn strings_eq(a: &Vec<String>, b: &Vec<String>) -> (r: bool)
    ensures
        r == (a@.map_values(|s: String| s@) == b@.map_values(|s: String| s@)),
{
    if a.len() != b.len() {
        assert(a@.map_values(|s: String| s@).len() != b@.map_values(|s: String| s@).len());
        return false;
    }
    let mut i: usize = 0;
    while i < a.len()
        invariant
            i <= a.len() == b.len(),
            forall|k: int| 0 <= k < i ==> #[trigger] a@[k]@ == b@[k]@,
        decreases a.len() - i,
    {
        if a[i] != b[i] {
            assert(a@.map_values(|s: String| s@)[i as int] != b@.map_values(|s: String| s@)[i as int]);
            return false;
        }
        i = i + 1;
    }
    assert(a@.map_values(|s: String| s@) =~= b@.map_values(|s: String| s@));
    true
}

/// Structural equality of two types (equal views).
pub fn ty_eq(a: &TypeRef, b: &TypeRef) -> (r: bool)
    ensures
        r == (a@ == b@),
    decreases a,
{
    match a {
        TypeRef::Boolean => match b {
            TypeRef::Boolean => true,
            _ => false,
        },
        TypeRef::Number => match b {
            TypeRef::Number => true,
            _ => false,
        },
        TypeRef::String => match b {
            TypeRef::String => true,
            _ => false,
        },
        TypeRef::BigInt => match b {
            TypeRef::BigInt => true,
            _ => false,
        },
        TypeRef::Void => match b {
            TypeRef::Void => true,
            _ => false,
        },
        TypeRef::Undefined => match b {
            TypeRef::Undefined => true,
            _ => false,
        },
        TypeRef::Null => match b {
            TypeRef::Null => true,
            _ => false,
        },
        TypeRef::Any => match b {
            TypeRef::Any => true,
            _ => false,
        },
        TypeRef::Unknown => match b {
            TypeRef::Unknown => true,
            _ => false,
        },
        TypeRef::Object => match b {
            TypeRef::Object => true,
            _ => false,
        },
        TypeRef::Symbol => match b {
            TypeRef::Symbol => true,
            _ => false,
        },
        TypeRef::ArrayBufferView => match b {
            TypeRef::ArrayBufferView => true,
            _ => false,
        },
        TypeRef::Array(x) => match b {
            TypeRef::Array(y) => ty_eq(x, y),
            _ => false,
        },
        TypeRef::Nullable(x) => match b {
            TypeRef::Nullable(y) => ty_eq(x, y),
            _ => false,
        },
        TypeRef::Union(x) => match b {
            TypeRef::Union(y) => tys_eq(x, y),
            _ => false,
        },
        TypeRef::Intersection(x) => match b {
            TypeRef::Intersection(y) => tys_eq(x, y),
            _ => false,
        },
        TypeRef::Tuple(x) => match b {
            TypeRef::Tuple(y) => tys_eq(x, y),
            _ => false,
        },
        TypeRef::Function(x) => match b {
            TypeRef::Function(y) => {
                let p = params_eq(&x.params, &y.params);
                let q = ty_eq(&x.return_type, &y.return_type);
                p && q
            },
            _ => false,
        },
        TypeRef::StringLiteral(x) => match b {
            TypeRef::StringLiteral(y) => *x == *y,
            _ => false,
        },
        TypeRef::NumberLiteral(x) => match b {
            TypeRef::NumberLiteral(y) => *x == *y,
            _ => false,
        },
        TypeRef::BooleanLiteral(x) => match b {
            TypeRef::BooleanLiteral(y) => *x == *y,
            _ => false,
        },
        TypeRef::Reference { segments: s1, generic_args: g1 } => match b {
            TypeRef::Reference { segments: s2, generic_args: g2 } => {
                let p = strings_eq(s1, s2);
                let q = tys_eq(g1, g2);
                assert((p && q) == (a@ == b@));
                p && q
            },
            _ => false,
        },
        TypeRef::Unresolved(x) => match b {
            TypeRef::Unresolved(y) => *x == *y,
            _ => false,
        },
    }
}

/// Elementwise structural equality of two type lists.
pub fn tys_eq(a: &Vec<TypeRef>, b: &Vec<TypeRef>) -> (r: bool)
    ensures
        r == (tys_view(a@) == tys_view(b@)),
    decreases a, 0nat,
{
    proof {
        lemma_tys_view(a@);
        lemma_tys_view(b@);
    }
    if a.len() != b.len() {
        return false;
    }
    let mut i: usize = 0;
    while i < a.len()
        invariant
            i <= a.len() == b.len(),
            tys_view(a@).len() == a@.len(),
            tys_view(b@).len() == b@.len(),
            forall|k: int| 0 <= k < a@.len() ==> #[trigger] tys_view(a@)[k] == ty_view(a@[k]),
            forall|k: int| 0 <= k < b@.len() ==> #[trigger] tys_view(b@)[k] == ty_view(b@[k]),
            forall|k: int| 0 <= k < i ==> #[trigger] ty_view(a@[k]) == ty_view(b@[k]),
        decreases a.len() - i,
    {
        assert(decreases_to!(a => a@[i as int]));
        if !ty_eq(&a[i], &b[i]) {
            assert(tys_view(a@)[i as int] != tys_view(b@)[i as int]);
            return false;
        }
        i = i + 1;
    }
    assert(tys_view(a@) =~= tys_view(b@));
    true
}

/// Elementwise equality of two parameter lists.
pub fn params_eq(a: &Vec<Param>, b: &Vec<Param>) -> (r: bool)
    ensures
        r == (params_view(a@) == params_view(b@)),
    decreases a, 0nat,
{
    proof {
        lemma_params_view(a@);
        lemma_params_view(b@);
    }
    if a.len() != b.len() {
        return false;
    }
    let mut i: usize = 0;
    while i < a.len()
        invariant
            i <= a.len() == b.len(),
            params_view(a@).len() == a@.len(),
            params_view(b@).len() == b@.len(),
            forall|k: int| 0 <= k < a@.len() ==> #[trigger] params_view(a@)[k] == param_view(a@[k]),
            forall|k: int| 0 <= k < b@.len() ==> #[trigger] params_view(b@)[k] == param_view(b@[k]),
            forall|k: int| 0 <= k < i ==> #[trigger] param_view(a@[k]) == param_view(b@[k]),
        decreases a.len() - i,
    {
        assert(decreases_to!(a => a@[i as int]));
        let x = &a[i];
        let y = &b[i];
        assert(decreases_to!(x => x.type_ref));
        let same = x.name == y.name && x.optional == y.optional && x.variadic == y.variadic
            && ty_eq(&x.type_ref, &y.type_ref);
        if !same {
            assert(params_view(a@)[i as int] != params_view(b@)[i as int]);
            return false;
        }
        i = i + 1;
    }
    assert(params_view(a@) =~= params_view(b@));
    true
}

impl PartialEq for TypeRef {
    fn eq(&self, other: &Self) -> (r: bool) {
        ty_eq(self, other)
    }
}

impl vstd::std_specs::cmp::PartialEqSpecImpl for TypeRef {
    open spec fn obeys_eq_spec() -> bool {
        true
    }

    open spec fn eq_spec(&self, other: &Self) -> bool {
        self@ == other@
    }
}


// ─── Type parameters ─────────────────────────────────────────────────

#[derive(Debug)]
pub struct TypeParam {
    pub name: String,
    /// `T extends Foo`, used for classification only.
    pub constraint: Option<TypeRef>,
    /// `T = Bar`, used for default instantiation.
    pub default: Option<TypeRef>,
}

pub struct TypeParamV {
    pub name: Seq<char>,
    pub constraint: Option<TyV>,
    pub default: Option<TyV>,
}

pub open spec fn opt_ty_view(t: Option<TypeRef>) -> Option<TyV> {
    match t {
        Some(x) => Some(x@),
        None => None,
    }
}

impl View for TypeParam {
    type V = TypeParamV;

    open spec fn view(&self) -> TypeParamV {
        TypeParamV {
            name: self.name@,
            constraint: opt_ty_view(self.constraint),
            default: opt_ty_view(self.default),
        }
    }
}

pub fn copy_opt_ty(t: &Option<TypeRef>) -> (r: Option<TypeRef>)
    ensures
        opt_ty_view(r) == opt_ty_view(*t),
{
    match t {
        Some(x) => Some(copy_ty(x)),
        None => None,
    }
}

impl Clone for TypeParam {
    fn clone(&self) -> (r: Self)
        ensures
            r@ == self@,
    {
        TypeParam {
            name: self.name.clone(),
            constraint: copy_opt_ty(&self.constraint),
            default: copy_opt_ty(&self.default),
        }
    }
}

/// A copy of a list of type parameters.
pub fn copy_type_params(v: &Vec<TypeParam>) -> (r: Vec<TypeParam>)
    ensures
        r@.map_values(|p: TypeParam| p@) == v@.map_values(|p: TypeParam| p@),
{
    let mut r: Vec<TypeParam> = Vec::new();
    let mut i: usize = 0;
    while i < v.len()
        invariant
            i <= v.len(),
            r@.len() == i,
            forall|k: int| 0 <= k < i ==> #[trigger] r@[k]@ == v@[k]@,
        decreases v.len() - i,
    {
        r.push(v[i].clone());
        i = i + 1;
    }
    assert(r@.map_values(|p: TypeParam| p@) =~= v@.map_values(|p: TypeParam| p@));
    r
}

// ─── Declarations ────────────────────────────────────────────────────

/// `std::path::PathBuf`, carried as an opaque value.
#[verifier::external_type_specification]
#[verifier::external_body]
pub struct ExPathBuf(PathBuf);

/// A parsed module: references types and scopes in the global context.
#[derive(Debug)]
pub struct Module {
    /// Type ids of the declarations from the input files.
    pub types: Vec<TypeId>,
    /// Optional library name from `--lib-name`.
    pub lib_name: Option<String>,
    /// Builtin (root) scope id.
    pub builtin_scope: ScopeId,
    /// Input file scope ids.
    pub file_scopes: Vec<ScopeId>,
    /// Canonical source-file path of each input file scope.
    pub file_scope_paths: HashMap<ScopeId, PathBuf>,
}

#[derive(Debug)]
pub struct TypeDeclaration {
    pub kind: TypeKind,
    pub module_context: ModuleContext,
    pub doc: Option<String>,
    /// The scope this declaration was defined in.
    pub scope_id: ScopeId,
    /// Whether this declaration was explicitly exported (in script mode
    /// every declaration is public).
    pub exported: bool,
}

#[derive(Debug)]
pub enum TypeKind {
    Class(ClassDecl),
    Interface(InterfaceDecl),
    /// A `type X = A | B | ...` whose branches share a literal-typed
    /// discriminant property.
    DiscriminatedUnion(DiscriminatedUnionDecl),
    TypeAlias(TypeAliasDecl),
    StringEnum(StringEnumDecl),
    NumericEnum(NumericEnumDecl),
    Function(FunctionDecl),
    Variable(VariableDecl),
    Namespace(NamespaceDecl),
}

#[derive(Debug)]
pub struct ClassDecl {
    pub name: String,
    /// Original JS name.
    pub js_name: String,
    pub type_params: Vec<TypeParam>,
    /// Immediate parent class.
    pub extends: Option<TypeRef>,
    pub implements: Vec<TypeRef>,
    pub is_abstract: bool,
    pub members: Vec<Member>,
    /// Where the type declaration itself should live.
    pub type_module_context: ModuleContext,
    /// Scope inside this class's body, holding its own type parameters.
    pub body_scope: ScopeId,
}

#[derive(Debug)]
pub struct InterfaceDecl {
    pub name: String,
    pub js_name: String,
    pub type_params: Vec<TypeParam>,
    pub extends: Vec<TypeRef>,
    pub members: Vec<Member>,
    /// Classification determined during assembly.
    pub classification: InterfaceClassification,
    /// Scope inside this interface's body.
    pub body_scope: ScopeId,
}

#[derive(Clone, Copy, Debug, PartialEq, Eq, Structural)]
pub enum InterfaceClassification {
    /// Has methods, used as a class-like type.
    ClassLike,
    /// All optional properties, no methods: an options bag.
    Dictionary,
    /// Mixed or unclear: treated as class-like.
    Unclassified,
}

/// A type alias `type Foo = A | B | ...` whose branches share at least one
/// required property typed as a literal, the discriminator.
#[derive(Debug)]
pub struct DiscriminatedUnionDecl {
    pub name: String,
    pub js_name: String,
    pub type_params: Vec<TypeParam>,
    /// Pre-merge per-branch member sets, in source order.
    pub branches: Vec<Vec<Member>>,
    /// Merged member view.
    pub members: Vec<Member>,
    /// JS names of the discriminator properties.
    pub discriminators: Vec<String>,
    /// Scope inside this declaration's body.
    pub body_scope: ScopeId,
}

#[derive(Debug)]
pub struct TypeAliasDecl {
    pub name: String,
    pub type_params: Vec<TypeParam>,
    pub target: TypeRef,
    /// The module specifier when the alias re-exports an external module.
    pub from_module: Option<String>,
    /// Scope inside this alias's body.
    pub body_scope: ScopeId,
}

#[derive(Debug)]
pub struct StringEnumDecl {
    pub name: String,
    pub variants: Vec<StringEnumVariant>,
}

#[derive(Debug)]
pub struct StringEnumVariant {
    /// PascalCase variant name.
    pub rust_name: String,
    /// Original string value.
    pub js_value: String,
}

#[derive(Debug)]
pub struct NumericEnumDecl {
    pub name: String,
    pub variants: Vec<NumericEnumVariant>,
}

#[derive(Debug)]
pub struct NumericEnumVariant {
    /// PascalCase variant name.
    pub rust_name: String,
    /// Original JS member name.
    pub js_name: String,
    /// Numeric discriminant value.
    pub value: i64,
    /// Doc comment for this variant.
    pub doc: Option<String>,
}

// ─── Failure modes ───────────────────────────────────────────────────

/// What `@throws` JSDoc says about a callable's failure modes: no
/// annotation, a typed error (several names form a union), or
/// `@throws {never}` alone.
#[derive(Debug)]
pub enum Throws {
    /// No `@throws` annotation.
    Unannotated,
    Type(TypeRef),
    Never,
}

pub enum ThrowsV {
    Unannotated,
    Type(TyV),
    Never,
}

impl View for Throws {
    type V = ThrowsV;

    open spec fn view(&self) -> ThrowsV {
        match *self {
            Throws::Unannotated => ThrowsV::Unannotated,
            Throws::Type(t) => ThrowsV::Type(t@),
            Throws::Never => ThrowsV::Never,
        }
    }
}

impl Clone for Throws {
    fn clone(&self) -> (r: Self)
        ensures
            r@ == self@,
    {
        match self {
            Throws::Unannotated => Throws::Unannotated,
            Throws::Type(t) => Throws::Type(copy_ty(t)),
            Throws::Never => Throws::Never,
        }
    }
}

impl Default for Throws {
    fn default() -> (r: Self)
        ensures
            r@ == ThrowsV::Unannotated,
    {
        Throws::Unannotated
    }
}

impl PartialEq for Throws {
    fn eq(&self, other: &Self) -> (r: bool) {
        match (self, other) {
            (Throws::Unannotated, Throws::Unannotated) => true,
            (Throws::Type(a), Throws::Type(b)) => ty_eq(a, b),
            (Throws::Never, Throws::Never) => true,
            _ => false,
        }
    }
}

impl vstd::std_specs::cmp::PartialEqSpecImpl for Throws {
    open spec fn obeys_eq_spec() -> bool {
        true
    }

    open spec fn eq_spec(&self, other: &Self) -> bool {
        self@ == other@
    }
}

impl Throws {
    /// The error type for codegen, if any; `Never` and `None` give `None`.
    pub fn as_type(&self) -> (r: Option<&TypeRef>)
        ensures
            match self@ {
                ThrowsV::Type(t) => r is Some && r->0@ == t,
                _ => r is None,
            },
    {
        match self {
            Throws::Type(t) => Some(t),
            _ => None,
        }
    }

    /// Whether this is the explicit "never throws" annotation.
    pub fn is_never(&self) -> (r: bool)
        ensures
            r == (self@ is Never),
    {
        match self {
            Throws::Never => true,
            _ => false,
        }
    }
}

// ─── Functions, variables, namespaces ────────────────────────────────

#[derive(Debug)]
pub struct FunctionDecl {
    pub name: String,
    pub js_name: String,
    pub type_params: Vec<TypeParam>,
    pub params: Vec<Param>,
    pub return_type: TypeRef,
    pub overloads: Vec<FunctionOverload>,
    /// Failure-mode info from `@throws` JSDoc.
    pub throws: Throws,
    /// Scope inside this function's body.
    pub body_scope: ScopeId,
}

#[derive(Debug)]
pub struct FunctionOverload {
    pub params: Vec<Param>,
    pub return_type: TypeRef,
}

#[derive(Debug)]
pub struct VariableDecl {
    pub name: String,
    pub js_name: String,
    pub type_ref: TypeRef,
    pub is_const: bool,
}

#[derive(Debug)]
pub struct NamespaceDecl {
    pub name: String,
    pub declarations: Vec<TypeDeclaration>,
    /// The child scope containing this namespace's member types.
    pub child_scope: ScopeId,
}

// ─── Type registry ───────────────────────────────────────────────────

/// Registry built during the first pass: type names to their kind and
/// primary declaration context.
#[derive(Debug, Default)]
pub struct TypeRegistry {
    pub types: HashMap<String, TypeInfo>,
    /// Local name to public export name for `export { local as exported }`.
    pub export_renames: HashMap<String, String>,
}

#[derive(Debug)]
pub struct TypeInfo {
    pub kind: RegisteredKind,
    /// Where this type's primary declaration lives.
    pub primary_context: ModuleContext,
}

#[derive(Clone, Copy, Debug, PartialEq, Eq, Structural)]
pub enum RegisteredKind {
    Class,
    Interface,
    /// `var` + `interface` pattern merged together.
    MergedClassLike,
    TypeAlias,
    /// A type alias that is a union of string literals.
    StringEnum,
    /// A TS enum with numeric (or auto-incrementing) values.
    NumericEnum,
    Function,
    Variable,
    Namespace,
}


// ─── Members ─────────────────────────────────────────────────────────

#[derive(Debug)]
pub enum Member {
    Getter(GetterMember),
    Setter(SetterMember),
    Method(MethodMember),
    Constructor(ConstructorMember),
    IndexSignature(IndexSigMember),
    StaticGetter(StaticGetterMember),
    StaticSetter(StaticSetterMember),
    StaticMethod(StaticMethodMember),
}

/// Instance property getter binding.
#[derive(Debug)]
pub struct GetterMember {
    /// Original JS property name.
    pub js_name: String,
    /// Type the getter returns.
    pub type_ref: TypeRef,
    /// Declared with `?:`: the getter returns an `Option`.
    pub optional: bool,
    pub doc: Option<String>,
}

/// Instance property setter binding.
#[derive(Debug)]
pub struct SetterMember {
    /// Original JS property name.
    pub js_name: String,
    /// Type the setter takes.
    pub type_ref: TypeRef,
    pub doc: Option<String>,
}

#[derive(Debug)]
pub struct MethodMember {
    pub name: String,
    pub js_name: String,
    pub type_params: Vec<TypeParam>,
    pub params: Vec<Param>,
    pub return_type: TypeRef,
    pub optional: bool,
    pub doc: Option<String>,
    /// Failure-mode info from `@throws`.
    pub throws: Throws,
    /// Scope inside this method's body, holding its own type parameters.
    pub body_scope: ScopeId,
}

#[derive(Debug)]
pub struct ConstructorMember {
    pub params: Vec<Param>,
    pub doc: Option<String>,
    /// Failure-mode info from `@throws`.
    pub throws: Throws,
}

#[derive(Debug)]
pub struct IndexSigMember {
    pub key_type: TypeRef,
    pub value_type: TypeRef,
    pub readonly: bool,
}

/// Static property getter binding.
#[derive(Debug)]
pub struct StaticGetterMember {
    /// Original JS property name.
    pub js_name: String,
    pub type_ref: TypeRef,
    pub doc: Option<String>,
}

/// Static property setter binding.
#[derive(Debug)]
pub struct StaticSetterMember {
    /// Original JS property name.
    pub js_name: String,
    pub type_ref: TypeRef,
    pub doc: Option<String>,
}

#[derive(Debug)]
pub struct StaticMethodMember {
    pub name: String,
    pub js_name: String,
    pub type_params: Vec<TypeParam>,
    pub params: Vec<Param>,
    pub return_type: TypeRef,
    pub doc: Option<String>,
    /// Failure-mode info from `@throws`.
    pub throws: Throws,
    /// Scope inside this static method's body.
    pub body_scope: ScopeId,
}

pub open spec fn opt_str_view(s: Option<String>) -> Option<Seq<char>> {
    match s {
        Some(x) => Some(x@),
        None => None,
    }
}

/// The mathematical value of a callable member's signature parts.
pub struct CallableV {
    pub name: Seq<char>,
    pub js_name: Seq<char>,
    pub type_params: Seq<TypeParamV>,
    pub params: Seq<ParamV>,
    pub return_type: TyV,
    pub optional: bool,
    pub doc: Option<Seq<char>>,
    pub throws: ThrowsV,
    pub body_scope: ScopeId,
}

/// The mathematical value of a `Member`.
pub enum MemberV {
    Getter { js_name: Seq<char>, ty: TyV, optional: bool, doc: Option<Seq<char>> },
    Setter { js_name: Seq<char>, ty: TyV, doc: Option<Seq<char>> },
    Method(CallableV),
    Constructor { params: Seq<ParamV>, doc: Option<Seq<char>>, throws: ThrowsV },
    IndexSignature { key: TyV, value: TyV, readonly: bool },
    StaticGetter { js_name: Seq<char>, ty: TyV, doc: Option<Seq<char>> },
    StaticSetter { js_name: Seq<char>, ty: TyV, doc: Option<Seq<char>> },
    StaticMethod(CallableV),
}

impl View for GetterMember {
    type V = MemberV;

    open spec fn view(&self) -> MemberV {
        MemberV::Getter {
            js_name: self.js_name@,
            ty: self.type_ref@,
            optional: self.optional,
            doc: opt_str_view(self.doc),
        }
    }
}

impl View for SetterMember {
    type V = MemberV;

    open spec fn view(&self) -> MemberV {
        MemberV::Setter { js_name: self.js_name@, ty: self.type_ref@, doc: opt_str_view(self.doc) }
    }
}

impl View for MethodMember {
    type V = CallableV;

    open spec fn view(&self) -> CallableV {
        CallableV {
            name: self.name@,
            js_name: self.js_name@,
            type_params: self.type_params@.map_values(|p: TypeParam| p@),
            params: params_view(self.params@),
            return_type: self.return_type@,
            optional: self.optional,
            doc: opt_str_view(self.doc),
            throws: self.throws@,
            body_scope: self.body_scope,
        }
    }
}

impl View for StaticMethodMember {
    type V = CallableV;

    open spec fn view(&self) -> CallableV {
        CallableV {
            name: self.name@,
            js_name: self.js_name@,
            type_params: self.type_params@.map_values(|p: TypeParam| p@),
            params: params_view(self.params@),
            return_type: self.return_type@,
            optional: false,
            doc: opt_str_view(self.doc),
            throws: self.throws@,
            body_scope: self.body_scope,
        }
    }
}

impl View for StaticGetterMember {
    type V = MemberV;

    open spec fn view(&self) -> MemberV {
        MemberV::StaticGetter {
            js_name: self.js_name@,
            ty: self.type_ref@,
            doc: opt_str_view(self.doc),
        }
    }
}

impl View for StaticSetterMember {
    type V = MemberV;

    open spec fn view(&self) -> MemberV {
        MemberV::StaticSetter {
            js_name: self.js_name@,
            ty: self.type_ref@,
            doc: opt_str_view(self.doc),
        }
    }
}

impl View for IndexSigMember {
    type V = MemberV;

    open spec fn view(&self) -> MemberV {
        MemberV::IndexSignature {
            key: self.key_type@,
            value: self.value_type@,
            readonly: self.readonly,
        }
    }
}

impl View for Member {
    type V = MemberV;

    open spec fn view(&self) -> MemberV {
        match *self {
            Member::Getter(g) => g@,
            Member::Setter(s) => s@,
            Member::Method(m) => MemberV::Method(m@),
            Member::Constructor(c) => MemberV::Constructor {
                params: params_view(c.params@),
                doc: opt_str_view(c.doc),
                throws: c.throws@,
            },
            Member::IndexSignature(x) => x@,
            Member::StaticGetter(g) => g@,
            Member::StaticSetter(s) => s@,
            Member::StaticMethod(m) => MemberV::StaticMethod(m@),
        }
    }
}

pub fn copy_opt_string(s: &Option<String>) -> (r: Option<String>)
    ensures
        opt_str_view(r) == opt_str_view(*s),
{
    match s {
        Some(x) => Some(x.clone()),
        None => None,
    }
}

impl Clone for GetterMember {
    fn clone(&self) -> (r: Self)
        ensures
            r@ == self@,
    {
        GetterMember {
            js_name: self.js_name.clone(),
            type_ref: copy_ty(&self.type_ref),
            optional: self.optional,
            doc: copy_opt_string(&self.doc),
        }
    }
}

impl Clone for SetterMember {
    fn clone(&self) -> (r: Self)
        ensures
            r@ == self@,
    {
        SetterMember {
            js_name: self.js_name.clone(),
            type_ref: copy_ty(&self.type_ref),
            doc: copy_opt_string(&self.doc),
        }
    }
}

impl Clone for MethodMember {
    fn clone(&self) -> (r: Self)
        ensures
            r@ == self@,
    {
        MethodMember {
            name: self.name.clone(),
            js_name: self.js_name.clone(),
            type_params: copy_type_params(&self.type_params),
            params: copy_params(&self.params),
            return_type: copy_ty(&self.return_type),
            optional: self.optional,
            doc: copy_opt_string(&self.doc),
            throws: self.throws.clone(),
            body_scope: self.body_scope,
        }
    }
}

impl Clone for ConstructorMember {
    fn clone(&self) -> (r: Self)
        ensures
            params_view(r.params@) == params_view(self.params@),
            opt_str_view(r.doc) == opt_str_view(self.doc),
            r.throws@ == self.throws@,
    {
        ConstructorMember {
            params: copy_params(&self.params),
            doc: copy_opt_string(&self.doc),
            throws: self.throws.clone(),
        }
    }
}

impl Clone for IndexSigMember {
    fn clone(&self) -> (r: Self)
        ensures
            r@ == self@,
    {
        IndexSigMember {
            key_type: copy_ty(&self.key_type),
            value_type: copy_ty(&self.value_type),
            readonly: self.readonly,
        }
    }
}

impl Clone for StaticGetterMember {
    fn clone(&self) -> (r: Self)
        ensures
            r@ == self@,
    {
        StaticGetterMember {
            js_name: self.js_name.clone(),
            type_ref: copy_ty(&self.type_ref),
            doc: copy_opt_string(&self.doc),
        }
    }
}

impl Clone for StaticSetterMember {
    fn clone(&self) -> (r: Self)
        ensures
            r@ == self@,
    {
        StaticSetterMember {
            js_name: self.js_name.clone(),
            type_ref: copy_ty(&self.type_ref),
            doc: copy_opt_string(&self.doc),
        }
    }
}

impl Clone for StaticMethodMember {
    fn clone(&self) -> (r: Self)
        ensures
            r@ == self@,
    {
        StaticMethodMember {
            name: self.name.clone(),
            js_name: self.js_name.clone(),
            type_params: copy_type_params(&self.type_params),
            params: copy_params(&self.params),
            return_type: copy_ty(&self.return_type),
            doc: copy_opt_string(&self.doc),
            throws: self.throws.clone(),
            body_scope: self.body_scope,
        }
    }
}

impl Clone for Member {
    fn clone(&self) -> (r: Self)
        ensures
            r@ == self@,
    {
        match self {
            Member::Getter(g) => Member::Getter(g.clone()),
            Member::Setter(s) => Member::Setter(s.clone()),
            Member::Method(m) => Member::Method(m.clone()),
            Member::Constructor(c) => Member::Constructor(c.clone()),
            Member::IndexSignature(x) => Member::IndexSignature(x.clone()),
            Member::StaticGetter(g) => Member::StaticGetter(g.clone()),
            Member::StaticSetter(s) => Member::StaticSetter(s.clone()),
            Member::StaticMethod(m) => Member::StaticMethod(m.clone()),
        }
    }
}


// ---------------------------------------------------------------------
// Laws of the rendering
// ---------------------------------------------------------------------

/// An array renders as its element followed by `[]`; a union, an
/// intersection or a nullable element is put in parentheses first, so
/// that its ` | ` or ` & ` does not bind looser than the `[]`.
pub proof fn law_array_element_parenthesized(t: TyV)
    ensures
        (t is Union || t is Intersection || t is Nullable) ==> fmt_ts(TyV::Array(Box::new(t)))
            == "("@ + fmt_ts(t) + ")[]"@,
        !(t is Union || t is Intersection || t is Nullable) ==> fmt_ts(TyV::Array(Box::new(t)))
            == fmt_ts(t) + "[]"@,
{
}

/// `T | null` renders as `T` followed by ` | null`; a two-member union
/// and intersection render as their members joined by ` | ` and ` & `.
pub proof fn law_union_and_intersection_separators(a: TyV, b: TyV)
    ensures
        fmt_ts(TyV::Nullable(Box::new(a))) == fmt_ts(a) + " | null"@,
        fmt_ts(TyV::Union(seq![a, b])) == fmt_ts(a) + " | "@ + fmt_ts(b),
        fmt_ts(TyV::Intersection(seq![a, b])) == fmt_ts(a) + " & "@ + fmt_ts(b),
{
    reveal_with_fuel(fmt_all, 3);
    reveal_with_fuel(join, 3);
    let ms = seq![a, b];
    assert(ms.drop_last() =~= seq![a]);
    assert(seq![a].drop_last() =~= Seq::<TyV>::empty());
    assert(fmt_all(seq![a]) =~= seq![fmt_ts(a)]);
    assert(fmt_all(ms) =~= seq![fmt_ts(a), fmt_ts(b)]);
    assert(seq![fmt_ts(a), fmt_ts(b)].drop_last() =~= seq![fmt_ts(a)]);
}


/// A string literal renders in double quotes; a pair tuple as
/// `[a, b]`; a named type as its dotted path, followed by its type
/// arguments in angle brackets when it has any.
pub proof fn law_literal_tuple_and_reference_rendering(
    lit: Seq<char>,
    a: TyV,
    b: TyV,
    x: Seq<char>,
    y: Seq<char>,
)
    ensures
        fmt_ts(TyV::StringLiteral(lit)) == "\""@ + lit + "\""@,
        fmt_ts(TyV::Tuple(seq![a, b])) == "["@ + fmt_ts(a) + ", "@ + fmt_ts(b) + "]"@,
        fmt_ts(TyV::Reference(seq![x], Seq::<TyV>::empty())) == x,
        fmt_ts(TyV::Reference(seq![x, y], Seq::<TyV>::empty())) == x + "."@ + y,
        fmt_ts(TyV::Reference(seq![x], seq![a])) == x + "<"@ + fmt_ts(a) + ">"@,
{
    reveal_with_fuel(fmt_all, 3);
    reveal_with_fuel(join, 3);
    assert(seq![a, b].drop_last() =~= seq![a]);
    assert(seq![a].drop_last() =~= Seq::<TyV>::empty());
    assert(fmt_all(seq![a]) =~= seq![fmt_ts(a)]);
    assert(fmt_all(seq![a, b]) =~= seq![fmt_ts(a), fmt_ts(b)]);
    assert(seq![fmt_ts(a), fmt_ts(b)].drop_last() =~= seq![fmt_ts(a)]);
    assert(seq![x, y].drop_last() =~= seq![x]);
    assert("["@ + (fmt_ts(a) + ", "@ + fmt_ts(b)) + "]"@ =~= "["@ + fmt_ts(a) + ", "@ + fmt_ts(b)
        + "]"@);
}


/// A function type with one parameter renders as
/// `(name: T) => R`, the name preceded by `...` when variadic and
/// followed by `?` when optional; with none as `() => R`.
pub proof fn law_function_rendering(name: Seq<char>, t: TyV, optional: bool, variadic: bool, ret: TyV)
    ensures
        fmt_ts(
            TyV::Function(
                seq![ParamV { name, ty: t, optional, variadic }],
                Box::new(ret),
            ),
        ) == "("@ + (if variadic {
            "..."@
        } else {
            seq![]
        }) + name + (if optional {
            "?"@
        } else {
            seq![]
        }) + ": "@ + fmt_ts(t) + ") => "@ + fmt_ts(ret),
        fmt_ts(TyV::Function(Seq::<ParamV>::empty(), Box::new(ret))) == "() => "@ + fmt_ts(ret),
{
    reveal_with_fuel(fmt_params, 2);
    reveal_with_fuel(join, 2);
    let p = ParamV { name, ty: t, optional, variadic };
    assert(seq![p].drop_last() =~= Seq::<ParamV>::empty());
    assert(fmt_params(seq![p]) =~= seq![fmt_param(p)]);
    let v = if variadic {
        "..."@
    } else {
        seq![]
    };
    let o = if optional {
        "?"@
    } else {
        seq![]
    };
    assert("("@ + (v + name + o + ": "@ + fmt_ts(t)) + ") => "@ + fmt_ts(ret) =~= "("@ + v + name
        + o + ": "@ + fmt_ts(t) + ") => "@ + fmt_ts(ret));
    assert("("@ + Seq::<char>::empty() + ") => "@ + fmt_ts(ret) =~= "() => "@ + fmt_ts(ret)) by {
        reveal_strlit("(");
        reveal_strlit(") => ");
        reveal_strlit("() => ");
    }
}

} // verus!
