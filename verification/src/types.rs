//! TypeScript type syntax and its conversion to the IR `TypeRef`.
//!
//! Conversion is purely syntactic: it walks the syntax tree and produces
//! a `TypeRef`. Name resolution (whether `T` names a declared type or an
//! in-scope generic parameter) is deferred to code generation, which
//! consults the scope chain at the use site.
//!
//! The converter still manages one piece of lexical scope: a function
//! type literal with type parameters (`<T>(x: T) => U`) gets a fresh
//! child scope holding them, appended to the arena, so that its `T`
//! shadows any outer `T`.

use vstd::prelude::*;
use crate::ir::{
    copy_ty, lemma_params_view, lemma_tys_view, opt_ty_view, params_view, tys_view, FunctionSig,
    Param, ParamV, TyV, TypeParam, TypeRef,
};
use crate::naming::{snake_spec, to_snake_case};
use crate::ctx::{ctx_grows, ParseCtx};
use crate::scope::{arena_wf, lemma_scope_at, scope_at, ScopeArena, ScopeId, ScopeRecord};
use crate::text::{decimal, push_decimal, str_eq, string_of};

verus! {

// ---------------------------------------------------------------------
// The syntax tree
// ---------------------------------------------------------------------

/// A TypeScript type, as written in a declaration file.
pub enum TsType {
    AnyKeyword,
    BooleanKeyword,
    BigIntKeyword,
    NeverKeyword,
    NullKeyword,
    NumberKeyword,
    ObjectKeyword,
    StringKeyword,
    SymbolKeyword,
    UndefinedKeyword,
    UnknownKeyword,
    VoidKeyword,
    IntrinsicKeyword,
    /// A (possibly qualified, possibly generic) named type.
    TypeReference(TsTypeReference),
    /// `T[]`.
    ArrayType(Box<TsType>),
    /// `A | B`.
    UnionType(Vec<TsType>),
    /// `A & B`.
    IntersectionType(Vec<TsType>),
    /// `[A, B]`.
    TupleType(Vec<TsTupleElement>),
    /// `<T>(x: A) => R`.
    FunctionType(Box<TsFunctionType>),
    /// `"a"`, `1`, `true`, ...
    LiteralType(TsLiteral),
    /// `{ ... }`.
    TypeLiteral,
    /// `new (...) => T`.
    ConstructorType,
    /// `A extends B ? C : D`.
    ConditionalType,
    /// `{ [K in T]: U }`.
    MappedType,
    /// `` `a${B}` ``.
    TemplateLiteralType,
    /// `T[K]`.
    IndexedAccessType,
    /// `infer T`.
    InferType,
    /// `keyof T`, `unique T`, `readonly T`.
    TypeOperatorType(TsTypeOperator, Box<TsType>),
    /// `x is T`.
    TypePredicate,
    /// `typeof x`.
    TypeQuery,
    /// `import("m").T`.
    ImportType,
    /// `this`.
    ThisType,
    /// `name: T` inside a tuple.
    NamedTupleMember(Box<TsTupleElement>),
    /// `(T)`.
    ParenthesizedType(Box<TsType>),
    /// JSDoc `?T`.
    JsDocNullableType(Box<TsType>),
    /// JSDoc `!T`.
    JsDocNonNullableType(Box<TsType>),
    /// JSDoc `?`.
    JsDocUnknownType,
}

/// An element of a tuple type.
pub enum TsTupleElement {
    /// `name: T`.
    NamedTupleMember(Box<TsTupleElement>),
    /// `...T`.
    RestType(Box<TsType>),
    /// `T?`.
    OptionalType(Box<TsType>),
    /// Any other type.
    Type(Box<TsType>),
}

/// The name of a referenced type.
pub enum TsTypeName {
    IdentifierReference(String),
    /// `Left.right`.
    QualifiedName(Box<TsTypeName>, String),
    ThisExpression,
}

/// A reference to a named type, with its type arguments if any.
pub struct TsTypeReference {
    pub name: TsTypeName,
    pub type_arguments: Option<Vec<TsType>>,
}

/// A declared type parameter: `T extends C = D`.
pub struct TsTypeParameter {
    pub name: String,
    pub constraint: Option<TsType>,
    pub default: Option<TsType>,
}

/// A function type literal.
pub struct TsFunctionType {
    pub type_parameters: Option<Vec<TsTypeParameter>>,
    pub params: TsFormalParameters,
    pub return_type: Box<TsType>,
}

/// The parameter list of a function.
pub struct TsFormalParameters {
    pub items: Vec<TsFormalParameter>,
    pub rest: Option<TsRestParameter>,
}

/// One parameter; `name` is `None` for a destructuring pattern.
pub struct TsFormalParameter {
    pub name: Option<String>,
    pub type_annotation: Option<TsType>,
    pub optional: bool,
}

/// A `...rest` parameter; `name` is `None` for a destructuring pattern.
pub struct TsRestParameter {
    pub name: Option<String>,
    pub type_annotation: Option<TsType>,
}

/// A literal type. A numeric literal holds the text JavaScript renders
/// for the number.
pub enum TsLiteral {
    Boolean(bool),
    Numeric(String),
    String(String),
    BigInt,
    Template,
    Unary,
}

/// The operator of a type-operator type.
#[derive(Clone, Copy, PartialEq, Eq, Debug)]
pub enum TsTypeOperator {
    Keyof,
    Unique,
    Readonly,
}

// ---------------------------------------------------------------------
// What a type converts to
// ---------------------------------------------------------------------

/// `null`, `undefined` and `void` arms coalesce into `Nullable`; no arm
/// left but those gives `null`; one arm stands for itself; otherwise
/// the union of what is left.
pub open spec fn non_null_arms(ts: Seq<TyV>) -> Seq<TyV>
    decreases ts.len(),
{
    if ts.len() == 0 {
        seq![]
    } else {
        let rest = non_null_arms(ts.drop_last());
        match ts.last() {
            TyV::Null | TyV::Undefined | TyV::Void => rest,
            other => rest.push(other),
        }
    }
}

/// Some arm is `null`, `undefined` or `void`.
pub open spec fn has_nullish_arm(ts: Seq<TyV>) -> bool {
    exists|i: int|
        0 <= i < ts.len() && (#[trigger] ts[i] is Null || ts[i] is Undefined || ts[i] is Void)
}

pub open spec fn simplify_union_spec(ts: Seq<TyV>) -> TyV {
    let nn = non_null_arms(ts);
    if nn.len() == 0 {
        TyV::Null
    } else {
        let core = if nn.len() == 1 {
            nn[0]
        } else {
            TyV::Union(nn)
        };
        if has_nullish_arm(ts) {
            TyV::Nullable(Box::new(core))
        } else {
            core
        }
    }
}

/// The path of a type name, head first: `A.B.C` is `["A", "B", "C"]`.
pub open spec fn name_path(n: TsTypeName) -> Seq<Seq<char>>
    decreases n,
{
    match n {
        TsTypeName::IdentifierReference(s) => seq![s@],
        TsTypeName::QualifiedName(left, right) => name_path(*left).push(right@),
        TsTypeName::ThisExpression => seq!["this"@],
    }
}

/// Utility types that are identity on their first type argument.
pub open spec fn is_utility_alias(s: Seq<char>) -> bool {
    s == "Partial"@ || s == "Required"@ || s == "Pick"@ || s == "Omit"@ || s == "Exclude"@
        || s == "Extract"@ || s == "NonNullable"@ || s == "ReturnType"@ || s == "Parameters"@
        || s == "ConstructorParameters"@ || s == "InstanceType"@ || s == "ThisParameterType"@
        || s == "OmitThisParameter"@ || s == "ThisType"@ || s == "Awaited"@
}

pub open spec fn lit_ty(l: TsLiteral) -> TyV {
    match l {
        TsLiteral::Boolean(b) => TyV::BooleanLiteral(b),
        TsLiteral::Numeric(s) => TyV::NumberLiteral(s@),
        TsLiteral::String(s) => TyV::StringLiteral(s@),
        TsLiteral::BigInt => TyV::BigInt,
        TsLiteral::Template => TyV::String,
        TsLiteral::Unary => TyV::Number,
    }
}

/// The IR type a TypeScript type converts to.
pub open spec fn ts_ty(t: TsType) -> TyV
    decreases t,
{
    match t {
        TsType::AnyKeyword => TyV::Any,
        TsType::BooleanKeyword => TyV::Boolean,
        TsType::BigIntKeyword => TyV::BigInt,
        TsType::NeverKeyword => TyV::Any,
        TsType::NullKeyword => TyV::Null,
        TsType::NumberKeyword => TyV::Number,
        TsType::ObjectKeyword => TyV::Object,
        TsType::StringKeyword => TyV::String,
        TsType::SymbolKeyword => TyV::Symbol,
        TsType::UndefinedKeyword => TyV::Undefined,
        TsType::UnknownKeyword => TyV::Unknown,
        TsType::VoidKeyword => TyV::Void,
        TsType::IntrinsicKeyword => TyV::Any,
        TsType::TypeReference(r) => ts_ref(r),
        TsType::ArrayType(e) => TyV::Array(Box::new(ts_ty(*e))),
        TsType::UnionType(v) => simplify_union_spec(ts_tys(v@)),
        TsType::IntersectionType(v) => TyV::Intersection(ts_tys(v@)),
        TsType::TupleType(v) => TyV::Tuple(ts_elems(v@)),
        TsType::FunctionType(f) => TyV::Function(
            ts_params(f.params),
            Box::new(ts_ty(*f.return_type)),
        ),
        TsType::LiteralType(l) => lit_ty(l),
        TsType::TypeLiteral => TyV::Object,
        TsType::ConstructorType => TyV::Any,
        TsType::ConditionalType => TyV::Unresolved("conditional type"@),
        TsType::MappedType => TyV::Unresolved("mapped type"@),
        TsType::TemplateLiteralType => TyV::String,
        TsType::IndexedAccessType => TyV::Unresolved("indexed access type"@),
        TsType::InferType => TyV::Unresolved("infer type"@),
        TsType::TypeOperatorType(op, b) => match op {
            TsTypeOperator::Readonly => ts_ty(*b),
            _ => TyV::Unresolved("type operator"@),
        },
        TsType::TypePredicate => TyV::Boolean,
        TsType::TypeQuery => TyV::Unresolved("typeof query"@),
        TsType::ImportType => TyV::Unresolved("import type"@),
        TsType::ThisType => TyV::Unresolved("this"@),
        TsType::NamedTupleMember(e) => ts_elem(*e),
        TsType::ParenthesizedType(b) => ts_ty(*b),
        TsType::JsDocNullableType(b) => TyV::Nullable(Box::new(ts_ty(*b))),
        TsType::JsDocNonNullableType(b) => ts_ty(*b),
        TsType::JsDocUnknownType => TyV::Any,
    }
}

pub open spec fn ts_tys(s: Seq<TsType>) -> Seq<TyV>
    decreases s,
{
    if s.len() == 0 {
        seq![]
    } else {
        ts_tys(s.drop_last()).push(ts_ty(s.last()))
    }
}

pub open spec fn ts_elem(e: TsTupleElement) -> TyV
    decreases e,
{
    match e {
        TsTupleElement::NamedTupleMember(inner) => ts_elem(*inner),
        TsTupleElement::RestType(b) => ts_ty(*b),
        TsTupleElement::OptionalType(b) => TyV::Nullable(Box::new(ts_ty(*b))),
        TsTupleElement::Type(b) => ts_ty(*b),
    }
}

pub open spec fn ts_elems(s: Seq<TsTupleElement>) -> Seq<TyV>
    decreases s,
{
    if s.len() == 0 {
        seq![]
    } else {
        ts_elems(s.drop_last()).push(ts_elem(s.last()))
    }
}

/// A named reference: wrapper keyword aliases become primitives,
/// `Function` an `(args) => any` function, identity utility types their
/// first argument (`object` without one), anything else a reference.
pub open spec fn ts_ref(r: TsTypeReference) -> TyV
    decreases r,
{
    let args = match r.type_arguments {
        Some(v) => ts_tys(v@),
        None => seq![],
    };
    let path = name_path(r.name);
    let head = path[0];
    if path.len() == 1 && head == "ArrayBufferView"@ {
        TyV::ArrayBufferView
    } else if path.len() == 1 && head == "Boolean"@ {
        TyV::Boolean
    } else if path.len() == 1 && head == "Number"@ {
        TyV::Number
    } else if path.len() == 1 && head == "String"@ {
        TyV::String
    } else if path.len() == 1 && head == "Object"@ {
        TyV::Object
    } else if path.len() == 1 && head == "Symbol"@ {
        TyV::Symbol
    } else if path.len() == 1 && head == "Function"@ {
        TyV::Function(seq![], Box::new(TyV::Any))
    } else if path.len() == 1 && is_utility_alias(head) {
        if args.len() > 0 {
            args[0]
        } else {
            TyV::Object
        }
    } else {
        TyV::Reference(path, args)
    }
}

/// The `i`-th ordinary parameter: a named one gets its name in snake
/// case, a pattern one `arg{i}`; no annotation means `any`.
pub open spec fn ts_param(p: TsFormalParameter, i: int) -> ParamV
    decreases p,
{
    ParamV {
        name: match p.name {
            Some(n) => snake_spec(n@),
            None => "arg"@ + decimal(i as nat),
        },
        ty: match p.type_annotation {
            Some(a) => ts_ty(a),
            None => TyV::Any,
        },
        optional: p.optional,
        variadic: false,
    }
}

pub open spec fn ts_param_items(s: Seq<TsFormalParameter>) -> Seq<ParamV>
    decreases s,
{
    if s.len() == 0 {
        seq![]
    } else {
        ts_param_items(s.drop_last()).push(ts_param(s.last(), s.len() - 1))
    }
}

/// The rest parameter: its name as written (or `rest`), variadic, of
/// type `any[]` when not annotated.
pub open spec fn ts_rest(r: TsRestParameter) -> ParamV
    decreases r,
{
    ParamV {
        name: match r.name {
            Some(n) => n@,
            None => "rest"@,
        },
        ty: match r.type_annotation {
            Some(a) => ts_ty(a),
            None => TyV::Array(Box::new(TyV::Any)),
        },
        optional: false,
        variadic: true,
    }
}

pub open spec fn ts_params(p: TsFormalParameters) -> Seq<ParamV>
    decreases p,
{
    ts_param_items(p.items@) + match p.rest {
        Some(r) => seq![ts_rest(r)],
        None => seq![],
    }
}

// ---------------------------------------------------------------------
// How many child scopes a conversion appends
// ---------------------------------------------------------------------

pub open spec fn ty_scopes(t: TsType) -> nat
    decreases t,
{
    match t {
        TsType::TypeReference(r) => ref_scopes(r),
        TsType::ArrayType(e) => ty_scopes(*e),
        TsType::UnionType(v) => tys_scopes(v@),
        TsType::IntersectionType(v) => tys_scopes(v@),
        TsType::TupleType(v) => elems_scopes(v@),
        TsType::FunctionType(f) => (if f.type_parameters is Some {
            1nat
        } else {
            0nat
        }) + params_scopes(f.params) + ty_scopes(*f.return_type),
        TsType::TypeOperatorType(op, b) => match op {
            TsTypeOperator::Readonly => ty_scopes(*b),
            _ => 0,
        },
        TsType::NamedTupleMember(e) => elem_scopes(*e),
        TsType::ParenthesizedType(b) => ty_scopes(*b),
        TsType::JsDocNullableType(b) => ty_scopes(*b),
        TsType::JsDocNonNullableType(b) => ty_scopes(*b),
        _ => 0,
    }
}

pub open spec fn tys_scopes(s: Seq<TsType>) -> nat
    decreases s,
{
    if s.len() == 0 {
        0
    } else {
        tys_scopes(s.drop_last()) + ty_scopes(s.last())
    }
}

pub open spec fn elem_scopes(e: TsTupleElement) -> nat
    decreases e,
{
    match e {
        TsTupleElement::NamedTupleMember(inner) => elem_scopes(*inner),
        TsTupleElement::RestType(b) => ty_scopes(*b),
        TsTupleElement::OptionalType(b) => ty_scopes(*b),
        TsTupleElement::Type(b) => ty_scopes(*b),
    }
}

pub open spec fn elems_scopes(s: Seq<TsTupleElement>) -> nat
    decreases s,
{
    if s.len() == 0 {
        0
    } else {
        elems_scopes(s.drop_last()) + elem_scopes(s.last())
    }
}

pub open spec fn ref_scopes(r: TsTypeReference) -> nat
    decreases r,
{
    match r.type_arguments {
        Some(v) => tys_scopes(v@),
        None => 0,
    }
}

pub open spec fn opt_scopes(a: Option<TsType>) -> nat
    decreases a,
{
    match a {
        Some(t) => ty_scopes(t),
        None => 0,
    }
}

pub open spec fn items_scopes(s: Seq<TsFormalParameter>) -> nat
    decreases s,
{
    if s.len() == 0 {
        0
    } else {
        items_scopes(s.drop_last()) + opt_scopes(s.last().type_annotation)
    }
}

pub open spec fn params_scopes(p: TsFormalParameters) -> nat
    decreases p,
{
    items_scopes(p.items@) + match p.rest {
        Some(r) => opt_scopes(r.type_annotation),
        None => 0,
    }
}

// ---------------------------------------------------------------------
// Which child scopes a conversion appends
// ---------------------------------------------------------------------

pub open spec fn tp_names(tps: Seq<TsTypeParameter>) -> Seq<Seq<char>> {
    tps.map_values(|p: TsTypeParameter| p.name@)
}

/// The scopes converting `t` in `scope` appends to an arena of length
/// `base`, in creation order: each function type literal with type
/// parameters adds a child of the scope it stands in, binding those
/// parameters, and its own parameters and return type are converted in
/// that child.
pub open spec fn ty_new_scopes(t: TsType, scope: ScopeId, base: int) -> Seq<ScopeRecord>
    decreases t,
{
    match t {
        TsType::TypeReference(r) => ref_new_scopes(r, scope, base),
        TsType::ArrayType(e) => ty_new_scopes(*e, scope, base),
        TsType::UnionType(v) => tys_new_scopes(v@, scope, base),
        TsType::IntersectionType(v) => tys_new_scopes(v@, scope, base),
        TsType::TupleType(v) => elems_new_scopes(v@, scope, base),
        TsType::FunctionType(f) => fn_new_scopes(*f, scope, base),
        TsType::TypeOperatorType(op, b) => match op {
            TsTypeOperator::Readonly => ty_new_scopes(*b, scope, base),
            _ => seq![],
        },
        TsType::NamedTupleMember(e) => elem_new_scopes(*e, scope, base),
        TsType::ParenthesizedType(b) => ty_new_scopes(*b, scope, base),
        TsType::JsDocNullableType(b) => ty_new_scopes(*b, scope, base),
        TsType::JsDocNonNullableType(b) => ty_new_scopes(*b, scope, base),
        _ => seq![],
    }
}

pub open spec fn fn_new_scopes(f: TsFunctionType, scope: ScopeId, base: int) -> Seq<ScopeRecord>
    decreases f,
{
    match f.type_parameters {
        Some(tps) => seq![
            ScopeRecord {
                parent: Some(scope),
                entries: crate::members::type_param_entries(tp_names(tps@)),
            },
        ] + params_new_scopes(f.params, scope_at(base), base + 1) + ty_new_scopes(
            *f.return_type,
            scope_at(base),
            base + 1 + params_scopes(f.params),
        ),
        None => params_new_scopes(f.params, scope, base) + ty_new_scopes(
            *f.return_type,
            scope,
            base + params_scopes(f.params),
        ),
    }
}

pub open spec fn tys_new_scopes(s: Seq<TsType>, scope: ScopeId, base: int) -> Seq<ScopeRecord>
    decreases s,
{
    if s.len() == 0 {
        seq![]
    } else {
        tys_new_scopes(s.drop_last(), scope, base) + ty_new_scopes(
            s.last(),
            scope,
            base + tys_scopes(s.drop_last()),
        )
    }
}

pub open spec fn elem_new_scopes(e: TsTupleElement, scope: ScopeId, base: int) -> Seq<ScopeRecord>
    decreases e,
{
    match e {
        TsTupleElement::NamedTupleMember(inner) => elem_new_scopes(*inner, scope, base),
        TsTupleElement::RestType(b) => ty_new_scopes(*b, scope, base),
        TsTupleElement::OptionalType(b) => ty_new_scopes(*b, scope, base),
        TsTupleElement::Type(b) => ty_new_scopes(*b, scope, base),
    }
}

pub open spec fn elems_new_scopes(s: Seq<TsTupleElement>, scope: ScopeId, base: int) -> Seq<
    ScopeRecord,
>
    decreases s,
{
    if s.len() == 0 {
        seq![]
    } else {
        elems_new_scopes(s.drop_last(), scope, base) + elem_new_scopes(
            s.last(),
            scope,
            base + elems_scopes(s.drop_last()),
        )
    }
}

pub open spec fn ref_new_scopes(r: TsTypeReference, scope: ScopeId, base: int) -> Seq<ScopeRecord>
    decreases r,
{
    match r.type_arguments {
        Some(v) => tys_new_scopes(v@, scope, base),
        None => seq![],
    }
}

pub open spec fn opt_new_scopes(a: Option<TsType>, scope: ScopeId, base: int) -> Seq<ScopeRecord>
    decreases a,
{
    match a {
        Some(t) => ty_new_scopes(t, scope, base),
        None => seq![],
    }
}

pub open spec fn items_new_scopes(s: Seq<TsFormalParameter>, scope: ScopeId, base: int) -> Seq<
    ScopeRecord,
>
    decreases s,
{
    if s.len() == 0 {
        seq![]
    } else {
        items_new_scopes(s.drop_last(), scope, base) + opt_new_scopes(
            s.last().type_annotation,
            scope,
            base + items_scopes(s.drop_last()),
        )
    }
}

pub open spec fn params_new_scopes(p: TsFormalParameters, scope: ScopeId, base: int) -> Seq<
    ScopeRecord,
>
    decreases p,
{
    items_new_scopes(p.items@, scope, base) + match p.rest {
        Some(r) => opt_new_scopes(r.type_annotation, scope, base + items_scopes(p.items@)),
        None => seq![],
    }
}

/// `new` extends `old` by `n` scopes and leaves the old ones as they
/// were.
pub open spec fn grows(old: Seq<ScopeRecord>, new: Seq<ScopeRecord>, n: nat) -> bool {
    &&& new.len() == old.len() + n
    &&& new.take(old.len() as int) == old
    &&& arena_wf(old) ==> arena_wf(new)
}

pub proof fn lemma_grows_trans(a: Seq<ScopeRecord>, b: Seq<ScopeRecord>, c: Seq<ScopeRecord>, n: nat, m: nat)
    requires
        grows(a, b, n),
        grows(b, c, m),
    ensures
        grows(a, c, n + m),
{
    assert(c.take(a.len() as int) =~= b.take(a.len() as int));
}

pub proof fn lemma_grows_zero(a: Seq<ScopeRecord>)
    ensures
        grows(a, a, 0),
        a + Seq::<ScopeRecord>::empty() == a,
{
    assert(a.take(a.len() as int) =~= a);
    assert(a + Seq::<ScopeRecord>::empty() =~= a);
}

proof fn lemma_append_assoc(a: Seq<ScopeRecord>, x: Seq<ScopeRecord>, y: Seq<ScopeRecord>)
    ensures
        a + x + y == a + (x + y),
{
    assert(a + x + y =~= a + (x + y));
}

proof fn lemma_tys_scopes_take(s: Seq<TsType>, i: int)
    requires
        0 <= i <= s.len(),
    ensures
        tys_scopes(s.take(i)) <= tys_scopes(s),
    decreases s.len() - i,
{
    if i < s.len() {
        lemma_tys_scopes_take(s, i + 1);
        assert(s.take(i + 1).drop_last() =~= s.take(i));
    } else {
        assert(s.take(i) =~= s);
    }
}

proof fn lemma_elems_scopes_take(s: Seq<TsTupleElement>, i: int)
    requires
        0 <= i <= s.len(),
    ensures
        elems_scopes(s.take(i)) <= elems_scopes(s),
    decreases s.len() - i,
{
    if i < s.len() {
        lemma_elems_scopes_take(s, i + 1);
        assert(s.take(i + 1).drop_last() =~= s.take(i));
    } else {
        assert(s.take(i) =~= s);
    }
}

proof fn lemma_items_scopes_take(s: Seq<TsFormalParameter>, i: int)
    requires
        0 <= i <= s.len(),
    ensures
        items_scopes(s.take(i)) <= items_scopes(s),
    decreases s.len() - i,
{
    if i < s.len() {
        lemma_items_scopes_take(s, i + 1);
        assert(s.take(i + 1).drop_last() =~= s.take(i));
    } else {
        assert(s.take(i) =~= s);
    }
}

// ---------------------------------------------------------------------
// Conversion
// ---------------------------------------------------------------------

/// Simplify a union type: `null`, `undefined` and `void` arms coalesce
/// into `Nullable<T>`.
pub fn simplify_union(types: Vec<TypeRef>) -> (r: TypeRef)
    ensures
        r@ == simplify_union_spec(tys_view(types@)),
{
    let ghost tv = tys_view(types@);
    proof {
        lemma_tys_view(types@);
    }
    let mut non_null: Vec<TypeRef> = Vec::new();
    let mut has_null = false;
    let mut has_undefined = false;
    let mut i: usize = 0;
    while i < types.len()
        invariant
            i <= types.len(),
            tv == tys_view(types@),
            tv.len() == types.len(),
            forall|j: int| 0 <= j < types.len() ==> #[trigger] tv[j] == types@[j]@,
            tys_view(non_null@) == non_null_arms(tv.take(i as int)),
            (has_null || has_undefined) == has_nullish_arm(tv.take(i as int)),
        decreases types.len() - i,
    {
        assert(tv.take(i + 1).drop_last() =~= tv.take(i as int));
        assert(tv.take(i + 1).last() == types@[i as int]@);
        let ghost nullish_here = tv[i as int] is Null || tv[i as int] is Undefined
            || tv[i as int] is Void;
        match &types[i] {
            TypeRef::Null => {
                has_null = true;
            },
            TypeRef::Undefined => {
                has_undefined = true;
            },
            TypeRef::Void => {
                has_undefined = true;
            },
            other => {
                let c = copy_ty(other);
                let ghost prev = non_null@;
                non_null.push(c);
                proof {
                    lemma_tys_view(prev);
                    lemma_tys_view(non_null@);
                }
                assert(tys_view(non_null@) =~= tys_view(prev).push(c@));
            },
        }
        proof {
            if nullish_here {
                assert(tv.take(i + 1)[i as int] == tv[i as int]);
            } else {
                assert forall|j: int|
                    0 <= j < i + 1 && (#[trigger] tv.take(i + 1)[j] is Null || tv.take(i + 1)[j] is Undefined
                        || tv.take(i + 1)[j] is Void) implies 0 <= j < i && (tv.take(i as int)[j] is Null
                    || tv.take(i as int)[j] is Undefined || tv.take(i as int)[j] is Void) by {}
                if has_nullish_arm(tv.take(i + 1)) {
                    let j = choose|j: int|
                        0 <= j < i + 1 && (#[trigger] tv.take(i + 1)[j] is Null || tv.take(i + 1)[j] is Undefined
                            || tv.take(i + 1)[j] is Void);
                    assert(tv.take(i as int)[j] == tv.take(i + 1)[j]);
                }
                if has_nullish_arm(tv.take(i as int)) {
                    let j = choose|j: int|
                        0 <= j < i && (#[trigger] tv.take(i as int)[j] is Null || tv.take(i as int)[j] is Undefined
                            || tv.take(i as int)[j] is Void);
                    assert(tv.take(i as int)[j] == tv.take(i + 1)[j]);
                }
            }
        }
        i = i + 1;
    }
    assert(tv.take(types.len() as int) =~= tv);
    proof {
        lemma_tys_view(non_null@);
    }
    let core = if non_null.len() == 1 {
        let c = non_null.pop().unwrap();
        c
    } else if non_null.len() == 0 {
        return TypeRef::Null;
    } else {
        TypeRef::Union(non_null)
    };
    if has_null || has_undefined {
        TypeRef::Nullable(Box::new(core))
    } else {
        core
    }
}

/// The path of a type name: head and qualifying segments.
fn collect_type_name_path(name: &TsTypeName) -> (r: (String, Vec<String>))
    ensures
        seq![r.0@] + r.1@.map_values(|s: String| s@) == name_path(*name),
    decreases name,
{
    match name {
        TsTypeName::IdentifierReference(ident) => {
            let segments: Vec<String> = Vec::new();
            assert(seq![ident@] + segments@.map_values(|s: String| s@) =~= seq![ident@]);
            (ident.clone(), segments)
        },
        TsTypeName::QualifiedName(left, right) => {
            let (head, mut segments) = collect_type_name_path(left);
            let ghost prev = segments@;
            segments.push(right.clone());
            assert(segments@.map_values(|s: String| s@) =~= prev.map_values(|s: String| s@).push(
                right@,
            ));
            assert(seq![head@] + segments@.map_values(|s: String| s@) =~= (seq![head@]
                + prev.map_values(|s: String| s@)).push(right@));
            (head, segments)
        },
        TsTypeName::ThisExpression => {
            let segments: Vec<String> = Vec::new();
            assert(seq!["this"@] + segments@.map_values(|s: String| s@) =~= seq!["this"@]);
            ("this".to_string(), segments)
        },
    }
}

fn is_utility_alias_name(s: &str) -> (r: bool)
    ensures
        r == is_utility_alias(s@),
{
    str_eq(s, "Partial") || str_eq(s, "Required") || str_eq(s, "Pick") || str_eq(s, "Omit")
        || str_eq(s, "Exclude") || str_eq(s, "Extract") || str_eq(s, "NonNullable") || str_eq(
        s,
        "ReturnType",
    ) || str_eq(s, "Parameters") || str_eq(s, "ConstructorParameters") || str_eq(
        s,
        "InstanceType",
    ) || str_eq(s, "ThisParameterType") || str_eq(s, "OmitThisParameter") || str_eq(
        s,
        "ThisType",
    ) || str_eq(s, "Awaited")
}

fn convert_literal_type(lit: &TsLiteral) -> (r: TypeRef)
    ensures
        r@ == lit_ty(*lit),
{
    match lit {
        TsLiteral::Boolean(b) => TypeRef::BooleanLiteral(*b),
        TsLiteral::Numeric(n) => TypeRef::NumberLiteral(n.clone()),
        TsLiteral::String(s) => TypeRef::StringLiteral(s.clone()),
        TsLiteral::BigInt => TypeRef::BigInt,
        TsLiteral::Template => TypeRef::String,
        TsLiteral::Unary => TypeRef::Number,
    }
}

/// Convert each type of a list.
fn convert_ts_types(v: &Vec<TsType>, scope: ScopeId, scopes: &mut ScopeArena) -> (r: Vec<TypeRef>)
    requires
        scope.index() < old(scopes)@.len(),
        old(scopes)@.len() + tys_scopes(v@) < u32::MAX,
    ensures
        tys_view(r@) == ts_tys(v@),
        r@.len() == v@.len(),
        grows(old(scopes)@, final(scopes)@, tys_scopes(v@)),
        final(scopes)@ == old(scopes)@ + tys_new_scopes(v@, scope, old(scopes)@.len() as int),
    decreases v,
{
    let ghost start = scopes@;
    proof {
        lemma_grows_zero(start);
        assert(v@.take(0) =~= Seq::<TsType>::empty());
    }
    let mut r: Vec<TypeRef> = Vec::new();
    let mut i: usize = 0;
    while i < v.len()
        invariant
            i <= v.len(),
            r@.len() == i,
            tys_view(r@) == ts_tys(v@.take(i as int)),
            scope.index() < start.len(),
            start.len() + tys_scopes(v@) < u32::MAX,
            grows(start, scopes@, tys_scopes(v@.take(i as int))),
            scopes@ == start + tys_new_scopes(v@.take(i as int), scope, start.len() as int),
        decreases v.len() - i,
    {
        assert(decreases_to!(v => v@[i as int]));
        assert(v@.take(i + 1).drop_last() =~= v@.take(i as int));
        proof {
            lemma_tys_scopes_take(v@, i + 1);
        }
        let ghost mid = scopes@;
        let t = convert_ts_type_with_arena(&v[i], scope, scopes);
        proof {
            lemma_grows_trans(start, mid, scopes@, tys_scopes(v@.take(i as int)), ty_scopes(v@[i as int]));
            lemma_append_assoc(
                start,
                tys_new_scopes(v@.take(i as int), scope, start.len() as int),
                ty_new_scopes(v@[i as int], scope, mid.len() as int),
            );
            assert(v@.take(i + 1).last() == v@[i as int]);
            assert(tys_new_scopes(v@.take(i + 1), scope, start.len() as int) == tys_new_scopes(
                v@.take(i as int),
                scope,
                start.len() as int,
            ) + ty_new_scopes(v@[i as int], scope, mid.len() as int));
        }
        let ghost before = r@;
        r.push(t);
        assert(r@.drop_last() =~= before);
        i = i + 1;
    }
    assert(v@.take(v@.len() as int) =~= v@);
    r
}

/// Convert each element of a tuple.
fn convert_tuple_elements(v: &Vec<TsTupleElement>, scope: ScopeId, scopes: &mut ScopeArena) -> (r: Vec<TypeRef>)
    requires
        scope.index() < old(scopes)@.len(),
        old(scopes)@.len() + elems_scopes(v@) < u32::MAX,
    ensures
        tys_view(r@) == ts_elems(v@),
        r@.len() == v@.len(),
        grows(old(scopes)@, final(scopes)@, elems_scopes(v@)),
        final(scopes)@ == old(scopes)@ + elems_new_scopes(v@, scope, old(scopes)@.len() as int),
    decreases v,
{
    let ghost start = scopes@;
    proof {
        lemma_grows_zero(start);
        assert(v@.take(0) =~= Seq::<TsTupleElement>::empty());
    }
    let mut r: Vec<TypeRef> = Vec::new();
    let mut i: usize = 0;
    while i < v.len()
        invariant
            i <= v.len(),
            r@.len() == i,
            tys_view(r@) == ts_elems(v@.take(i as int)),
            scope.index() < start.len(),
            start.len() + elems_scopes(v@) < u32::MAX,
            grows(start, scopes@, elems_scopes(v@.take(i as int))),
            scopes@ == start + elems_new_scopes(v@.take(i as int), scope, start.len() as int),
        decreases v.len() - i,
    {
        assert(decreases_to!(v => v@[i as int]));
        assert(v@.take(i + 1).drop_last() =~= v@.take(i as int));
        proof {
            lemma_elems_scopes_take(v@, i + 1);
        }
        let ghost mid = scopes@;
        let t = convert_tuple_element(&v[i], scope, scopes);
        proof {
            lemma_grows_trans(start, mid, scopes@, elems_scopes(v@.take(i as int)), elem_scopes(v@[i as int]));
            lemma_append_assoc(
                start,
                elems_new_scopes(v@.take(i as int), scope, start.len() as int),
                elem_new_scopes(v@[i as int], scope, mid.len() as int),
            );
            assert(v@.take(i + 1).last() == v@[i as int]);
            assert(elems_new_scopes(v@.take(i + 1), scope, start.len() as int) == elems_new_scopes(
                v@.take(i as int),
                scope,
                start.len() as int,
            ) + elem_new_scopes(v@[i as int], scope, mid.len() as int));
        }
        let ghost before = r@;
        r.push(t);
        assert(r@.drop_last() =~= before);
        i = i + 1;
    }
    assert(v@.take(v@.len() as int) =~= v@);
    r
}

/// Convert a tuple element.
fn convert_tuple_element(elem: &TsTupleElement, scope: ScopeId, scopes: &mut ScopeArena) -> (r: TypeRef)
    requires
        scope.index() < old(scopes)@.len(),
        old(scopes)@.len() + elem_scopes(*elem) < u32::MAX,
    ensures
        r@ == ts_elem(*elem),
        grows(old(scopes)@, final(scopes)@, elem_scopes(*elem)),
        final(scopes)@ == old(scopes)@ + elem_new_scopes(*elem, scope, old(scopes)@.len() as int),
    decreases elem,
{
    match elem {
        TsTupleElement::NamedTupleMember(member) => convert_tuple_element(member, scope, scopes),
        TsTupleElement::RestType(rest) => convert_ts_type_with_arena(rest, scope, scopes),
        TsTupleElement::OptionalType(opt) => {
            let inner = convert_ts_type_with_arena(opt, scope, scopes);
            TypeRef::Nullable(Box::new(inner))
        },
        TsTupleElement::Type(t) => convert_ts_type_with_arena(t, scope, scopes),
    }
}

/// Convert a reference to a named type.
fn convert_type_reference(type_ref: &TsTypeReference, scope: ScopeId, scopes: &mut ScopeArena) -> (r: TypeRef)
    requires
        scope.index() < old(scopes)@.len(),
        old(scopes)@.len() + ref_scopes(*type_ref) < u32::MAX,
    ensures
        r@ == ts_ref(*type_ref),
        grows(old(scopes)@, final(scopes)@, ref_scopes(*type_ref)),
        final(scopes)@ == old(scopes)@ + ref_new_scopes(*type_ref, scope, old(scopes)@.len() as int),
    decreases type_ref,
{
    let (head, segments) = collect_type_name_path(&type_ref.name);
    let ghost path = name_path(type_ref.name);
    assert(path[0] == head@);
    assert(path.len() == 1 + segments@.len());
    let mut type_args: Vec<TypeRef> = match &type_ref.type_arguments {
        Some(args) => convert_ts_types(args, scope, scopes),
        None => {
            proof {
                lemma_grows_zero(scopes@);
            }
            Vec::new()
        },
    };
    proof {
        lemma_tys_view(type_args@);
    }
    if segments.len() == 0 {
        let h = head.as_str();
        if str_eq(h, "ArrayBufferView") {
            return TypeRef::ArrayBufferView;
        } else if str_eq(h, "Boolean") {
            return TypeRef::Boolean;
        } else if str_eq(h, "Number") {
            return TypeRef::Number;
        } else if str_eq(h, "String") {
            return TypeRef::String;
        } else if str_eq(h, "Object") {
            return TypeRef::Object;
        } else if str_eq(h, "Symbol") {
            return TypeRef::Symbol;
        } else if str_eq(h, "Function") {
            let params: Vec<Param> = Vec::new();
            proof {
                lemma_params_view(params@);
            }
            assert(params_view(params@) =~= Seq::<ParamV>::empty());
            assert(crate::ir::ty_view(TypeRef::Any) == TyV::Any);
            return TypeRef::Function(FunctionSig { params, return_type: Box::new(TypeRef::Any) });
        } else if is_utility_alias_name(h) {
            if type_args.len() > 0 {
                let first = type_args.remove(0);
                return first;
            } else {
                return TypeRef::Object;
            }
        }
    }
    let mut path_v: Vec<String> = Vec::new();
    path_v.push(head);
    let mut k: usize = 0;
    while k < segments.len()
        invariant
            k <= segments.len(),
            path_v@.map_values(|s: String| s@) == path.take(k + 1),
            path == seq![head@] + segments@.map_values(|s: String| s@),
        decreases segments.len() - k,
    {
        let ghost prev = path_v@;
        assert(path[k + 1] == segments@[k as int]@);
        let seg = segments[k].clone();
        path_v.push(seg);
        assert(path_v@.map_values(|s: String| s@) =~= prev.map_values(|s: String| s@).push(seg@));
        assert(path.take(k + 2) =~= path.take(k + 1).push(path[k + 1]));
        assert(path_v@.map_values(|s: String| s@) =~= path.take(k + 2));
        k = k + 1;
    }
    assert(path.take(segments.len() + 1) =~= path);
    TypeRef::Reference { segments: path_v, generic_args: type_args }
}

/// Convert a function type literal; its type parameters go into a fresh
/// child scope.
fn convert_function_type(func: &TsFunctionType, scope: ScopeId, scopes: &mut ScopeArena) -> (r: FunctionSig)
    requires
        scope.index() < old(scopes)@.len(),
        old(scopes)@.len() + (if func.type_parameters is Some {
            1nat
        } else {
            0nat
        }) + params_scopes(func.params) + ty_scopes(*func.return_type) < u32::MAX,
    ensures
        params_view(r.params@) == ts_params(func.params),
        r.return_type@ == ts_ty(*func.return_type),
        final(scopes)@ == old(scopes)@ + fn_new_scopes(*func, scope, old(scopes)@.len() as int),
        grows(
            old(scopes)@,
            final(scopes)@,
            (if func.type_parameters is Some {
                1nat
            } else {
                0nat
            }) + params_scopes(func.params) + ty_scopes(*func.return_type),
        ),
    decreases func,
{
    let ghost start = scopes@;
    let inner_scope = match &func.type_parameters {
        Some(tp) => {
            let child = scopes.create_child(scope);
            let ghost after_child = scopes@;
            let ghost names = tp_names(tp@);
            let mut i: usize = 0;
            while i < tp.len()
                invariant
                    i <= tp.len(),
                    names == tp_names(tp@),
                    child.index() == start.len(),
                    scopes@.len() == start.len() + 1,
                    scopes@.take(start.len() as int) == start,
                    arena_wf(start) ==> arena_wf(scopes@),
                    scopes@ == start.push(
                        ScopeRecord {
                            parent: Some(scope),
                            entries: crate::members::type_param_entries(names.take(i as int)),
                        },
                    ),
                decreases tp.len() - i,
            {
                let ghost prev = scopes@;
                scopes.insert_type_param(child, tp[i].name.clone());
                assert(names.take(i + 1).drop_last() =~= names.take(i as int));
                assert(names.take(i + 1).last() == tp@[i as int].name@);
                assert(scopes@ =~= start.push(
                    ScopeRecord {
                        parent: Some(scope),
                        entries: crate::members::type_param_entries(names.take(i + 1)),
                    },
                ));
                assert(scopes@.take(start.len() as int) =~= prev.take(start.len() as int));
                assert(arena_wf(prev) ==> arena_wf(scopes@)) by {
                    if arena_wf(prev) {
                        assert forall|j: int| 0 <= j < scopes@.len() implies match #[trigger] scopes@[j].parent {
                            Some(p) => 0 <= p.index() < j,
                            None => true,
                        } by {
                            assert(prev[j].parent == scopes@[j].parent);
                        }
                    }
                }
                i = i + 1;
            }
            assert(grows(start, scopes@, 1));
            assert(names.take(tp.len() as int) =~= names);
            proof {
                lemma_scope_at(child);
            }
            child
        },
        None => {
            proof {
                lemma_grows_zero(start);
            }
            scope
        },
    };
    let ghost mid = scopes@;
    let params = convert_formal_params_with_arena(&func.params, inner_scope, scopes);
    let ghost mid2 = scopes@;
    let return_type = convert_ts_type_with_arena(&func.return_type, inner_scope, scopes);
    proof {
        let n0: nat = if func.type_parameters is Some {
            1nat
        } else {
            0nat
        };
        lemma_grows_trans(start, mid, mid2, n0, params_scopes(func.params));
        lemma_grows_trans(start, mid2, scopes@, n0 + params_scopes(func.params), ty_scopes(*func.return_type));
        let pn = params_new_scopes(func.params, inner_scope, mid.len() as int);
        let rn = ty_new_scopes(*func.return_type, inner_scope, mid2.len() as int);
        lemma_append_assoc(mid, pn, rn);
        match &func.type_parameters {
            Some(tps) => {
                let rec = ScopeRecord {
                    parent: Some(scope),
                    entries: crate::members::type_param_entries(tp_names(tps@)),
                };
                assert(mid == start + seq![rec]);
                lemma_append_assoc(start, seq![rec], pn + rn);
                assert(seq![rec] + (pn + rn) =~= seq![rec] + pn + rn);
            },
            None => {
                assert(mid == start);
            },
        }
    }
    FunctionSig { params, return_type: Box::new(return_type) }
}

/// Convert a parameter list against a scope of the arena.
fn convert_formal_params_with_arena(params: &TsFormalParameters, scope: ScopeId, scopes: &mut ScopeArena) -> (r: Vec<Param>)
    requires
        scope.index() < old(scopes)@.len(),
        old(scopes)@.len() + params_scopes(*params) < u32::MAX,
    ensures
        params_view(r@) == ts_params(*params),
        grows(old(scopes)@, final(scopes)@, params_scopes(*params)),
        final(scopes)@ == old(scopes)@ + params_new_scopes(*params, scope, old(scopes)@.len() as int),
    decreases params,
{
    let ghost start = scopes@;
    let ghost items = params.items@;
    proof {
        lemma_grows_zero(start);
        assert(items.take(0) =~= Seq::<TsFormalParameter>::empty());
    }
    let mut result: Vec<Param> = Vec::new();
    let mut i: usize = 0;
    while i < params.items.len()
        invariant
            i <= params.items.len(),
            items == params.items@,
            result@.len() == i,
            params_view(result@) == ts_param_items(items.take(i as int)),
            scope.index() < start.len(),
            start.len() + params_scopes(*params) < u32::MAX,
            grows(start, scopes@, items_scopes(items.take(i as int))),
            scopes@ == start + items_new_scopes(items.take(i as int), scope, start.len() as int),
        decreases params.items.len() - i,
    {
        assert(decreases_to!(params => params.items));
        assert(decreases_to!(params.items => params.items@[i as int]));
        let param = &params.items[i];
        assert(items.take(i + 1).drop_last() =~= items.take(i as int));
        assert(items.take(i + 1).last() == *param);
        proof {
            lemma_items_scopes_take(items, i + 1);
        }
        let name = match &param.name {
            Some(n) => to_snake_case(n.as_str()),
            None => {
                let mut v: Vec<char> = Vec::new();
                v.push('a');
                v.push('r');
                v.push('g');
                push_decimal(&mut v, i);
                proof {
                    reveal_strlit("arg");
                }
                assert(v@ =~= "arg"@ + decimal(i as nat));
                string_of(&v)
            },
        };
        let ghost mid = scopes@;
        assert(items_scopes(items.take(i + 1)) == items_scopes(items.take(i as int)) + opt_scopes(
            param.type_annotation,
        ));
        assert(items_scopes(items) <= params_scopes(*params));
        let type_ref = match &param.type_annotation {
            Some(ann) => convert_ts_type_with_arena(ann, scope, scopes),
            None => {
                proof {
                    lemma_grows_zero(scopes@);
                }
                TypeRef::Any
            },
        };
        proof {
            lemma_grows_trans(start, mid, scopes@, items_scopes(items.take(i as int)), opt_scopes(param.type_annotation));
            lemma_append_assoc(
                start,
                items_new_scopes(items.take(i as int), scope, start.len() as int),
                opt_new_scopes(param.type_annotation, scope, mid.len() as int),
            );
            assert(items_new_scopes(items.take(i + 1), scope, start.len() as int) == items_new_scopes(
                items.take(i as int),
                scope,
                start.len() as int,
            ) + opt_new_scopes(param.type_annotation, scope, mid.len() as int));
        }
        let p = Param { name, type_ref, optional: param.optional, variadic: false };
        assert(p@ == ts_param(items.take(i + 1).last(), i as int));
        let ghost before = result@;
        result.push(p);
        proof {
            lemma_params_view(before);
            lemma_params_view(result@);
        }
        assert(params_view(result@) =~= params_view(before).push(p@));
        i = i + 1;
    }
    assert(items.take(items.len() as int) =~= items);
    match &params.rest {
        Some(rest) => {
            let name = match &rest.name {
                Some(n) => n.clone(),
                None => "rest".to_string(),
            };
            let ghost mid = scopes@;
            assert(params_scopes(*params) == items_scopes(items) + opt_scopes(rest.type_annotation));
            let type_ref = match &rest.type_annotation {
                Some(ann) => convert_ts_type_with_arena(ann, scope, scopes),
                None => {
                    proof {
                        lemma_grows_zero(scopes@);
                    }
                    TypeRef::Array(Box::new(TypeRef::Any))
                },
            };
            proof {
                lemma_grows_trans(start, mid, scopes@, items_scopes(items), opt_scopes(rest.type_annotation));
                lemma_append_assoc(
                    start,
                    items_new_scopes(items, scope, start.len() as int),
                    opt_new_scopes(rest.type_annotation, scope, mid.len() as int),
                );
            }
            let p = Param { name, type_ref, optional: false, variadic: true };
            let ghost before = result@;
            result.push(p);
            proof {
                lemma_params_view(before);
                lemma_params_view(result@);
            }
            assert(params_view(result@) =~= params_view(before) + seq![ts_rest(*rest)]);
        },
        None => {
            assert(params_view(result@) =~= params_view(result@) + Seq::<ParamV>::empty());
            assert(items_new_scopes(items, scope, start.len() as int) + Seq::<ScopeRecord>::empty()
                =~= items_new_scopes(items, scope, start.len() as int));
        },
    }
    result
}

/// Walk a type against a scope of the arena.
fn convert_ts_type_with_arena(ts_type: &TsType, scope: ScopeId, scopes: &mut ScopeArena) -> (r: TypeRef)
    requires
        scope.index() < old(scopes)@.len(),
        old(scopes)@.len() + ty_scopes(*ts_type) < u32::MAX,
    ensures
        r@ == ts_ty(*ts_type),
        grows(old(scopes)@, final(scopes)@, ty_scopes(*ts_type)),
        final(scopes)@ == old(scopes)@ + ty_new_scopes(*ts_type, scope, old(scopes)@.len() as int),
    decreases ts_type,
{
    proof {
        lemma_grows_zero(scopes@);
    }
    match ts_type {
        TsType::AnyKeyword => TypeRef::Any,
        TsType::BooleanKeyword => TypeRef::Boolean,
        TsType::BigIntKeyword => TypeRef::BigInt,
        TsType::NeverKeyword => TypeRef::Any,
        TsType::NullKeyword => TypeRef::Null,
        TsType::NumberKeyword => TypeRef::Number,
        TsType::ObjectKeyword => TypeRef::Object,
        TsType::StringKeyword => TypeRef::String,
        TsType::SymbolKeyword => TypeRef::Symbol,
        TsType::UndefinedKeyword => TypeRef::Undefined,
        TsType::UnknownKeyword => TypeRef::Unknown,
        TsType::VoidKeyword => TypeRef::Void,
        TsType::IntrinsicKeyword => TypeRef::Any,
        TsType::TypeReference(type_ref) => convert_type_reference(type_ref, scope, scopes),
        TsType::ArrayType(arr) => {
            let inner = convert_ts_type_with_arena(arr, scope, scopes);
            TypeRef::Array(Box::new(inner))
        },
        TsType::UnionType(types) => {
            let converted = convert_ts_types(types, scope, scopes);
            simplify_union(converted)
        },
        TsType::IntersectionType(types) => {
            let converted = convert_ts_types(types, scope, scopes);
            TypeRef::Intersection(converted)
        },
        TsType::TupleType(elems) => {
            let converted = convert_tuple_elements(elems, scope, scopes);
            TypeRef::Tuple(converted)
        },
        TsType::FunctionType(func) => {
            let sig = convert_function_type(func, scope, scopes);
            TypeRef::Function(sig)
        },
        TsType::LiteralType(lit) => convert_literal_type(lit),
        TsType::TypeLiteral => TypeRef::Object,
        TsType::ConstructorType => TypeRef::Any,
        TsType::ConditionalType => TypeRef::Unresolved("conditional type".to_string()),
        TsType::MappedType => TypeRef::Unresolved("mapped type".to_string()),
        TsType::TemplateLiteralType => TypeRef::String,
        TsType::IndexedAccessType => TypeRef::Unresolved("indexed access type".to_string()),
        TsType::InferType => TypeRef::Unresolved("infer type".to_string()),
        TsType::TypeOperatorType(op, operand) => match op {
            TsTypeOperator::Readonly => convert_ts_type_with_arena(operand, scope, scopes),
            _ => TypeRef::Unresolved("type operator".to_string()),
        },
        TsType::TypePredicate => TypeRef::Boolean,
        TsType::TypeQuery => TypeRef::Unresolved("typeof query".to_string()),
        TsType::ImportType => TypeRef::Unresolved("import type".to_string()),
        TsType::ThisType => TypeRef::Unresolved("this".to_string()),
        TsType::NamedTupleMember(member) => convert_tuple_element(member, scope, scopes),
        TsType::ParenthesizedType(paren) => convert_ts_type_with_arena(paren, scope, scopes),
        TsType::JsDocNullableType(nullable) => {
            let inner = convert_ts_type_with_arena(nullable, scope, scopes);
            TypeRef::Nullable(Box::new(inner))
        },
        TsType::JsDocNonNullableType(non_nullable) => convert_ts_type_with_arena(
            non_nullable,
            scope,
            scopes,
        ),
        TsType::JsDocUnknownType => TypeRef::Any,
    }
}

/// Convert a type with no enclosing type-parameter scope (against a
/// throwaway arena).
pub fn convert_ts_type(ts_type: &TsType) -> (r: TypeRef)
    requires
        ty_scopes(*ts_type) + 1 < u32::MAX,
    ensures
        r@ == ts_ty(*ts_type),
{
    let mut scratch = ScopeArena::new();
    let root = scratch.create_root();
    convert_ts_type_with_arena(ts_type, root, &mut scratch)
}

/// Convert a type with a lexical scope rooted at `scope`. Each function
/// type literal with type parameters appends a child of the scope it
/// stands in, binding those parameters (`ty_new_scopes`); the scopes
/// already there stay as they were.
pub fn convert_ts_type_scoped(ts_type: &TsType, scope: ScopeId, ctx: &mut ParseCtx) -> (r: TypeRef)
    requires
        scope.index() < old(ctx).scopes@.len(),
        old(ctx).scopes@.len() + ty_scopes(*ts_type) < u32::MAX,
    ensures
        r@ == ts_ty(*ts_type),
        ctx_grows(
            *old(ctx),
            *final(ctx),
            ty_scopes(*ts_type),
            ty_new_scopes(*ts_type, scope, old(ctx).scopes@.len() as int),
        ),
{
    convert_ts_type_with_arena(ts_type, scope, &mut ctx.scopes)
}

/// Convert a parameter list with no enclosing scope.
pub fn convert_formal_params(params: &TsFormalParameters) -> (r: Vec<Param>)
    requires
        params_scopes(*params) + 1 < u32::MAX,
    ensures
        params_view(r@) == ts_params(*params),
{
    let mut scratch = ScopeArena::new();
    let root = scratch.create_root();
    convert_formal_params_with_arena(params, root, &mut scratch)
}

/// Convert a parameter list scoped at `scope` for nested type resolution.
pub fn convert_formal_params_scoped(params: &TsFormalParameters, scope: ScopeId, ctx: &mut ParseCtx) -> (r: Vec<Param>)
    requires
        scope.index() < old(ctx).scopes@.len(),
        old(ctx).scopes@.len() + params_scopes(*params) < u32::MAX,
    ensures
        params_view(r@) == ts_params(*params),
        ctx_grows(
            *old(ctx),
            *final(ctx),
            params_scopes(*params),
            params_new_scopes(*params, scope, old(ctx).scopes@.len() as int),
        ),
{
    convert_formal_params_with_arena(params, scope, &mut ctx.scopes)
}

pub open spec fn opt_ts_ty(a: Option<TsType>) -> Option<TyV> {
    match a {
        Some(t) => Some(ts_ty(t)),
        None => None,
    }
}

/// The IR form of a declared type parameter.
pub open spec fn ts_type_param(p: TsTypeParameter) -> crate::ir::TypeParamV {
    crate::ir::TypeParamV {
        name: p.name@,
        constraint: opt_ts_ty(p.constraint),
        default: opt_ts_ty(p.default),
    }
}

/// Every constraint and default fits a throwaway arena.
pub open spec fn type_params_fit(ps: Seq<TsTypeParameter>) -> bool {
    forall|i: int|
        0 <= i < ps.len() ==> opt_scopes(#[trigger] ps[i].constraint) + 1 < u32::MAX
            && opt_scopes(ps[i].default) + 1 < u32::MAX
}

fn convert_opt_type(a: &Option<TsType>) -> (r: Option<TypeRef>)
    requires
        opt_scopes(*a) + 1 < u32::MAX,
    ensures
        opt_ty_view(r) == opt_ts_ty(*a),
{
    match a {
        Some(t) => Some(convert_ts_type(t)),
        None => None,
    }
}

/// Convert a declared type-parameter list (none when absent).
pub fn convert_type_params(type_params: Option<&Vec<TsTypeParameter>>) -> (r: Vec<TypeParam>)
    requires
        match type_params {
            Some(ps) => type_params_fit(ps@),
            None => true,
        },
    ensures
        r@.map_values(|p: TypeParam| p@) == match type_params {
            Some(ps) => ps@.map_values(|p: TsTypeParameter| ts_type_param(p)),
            None => Seq::empty(),
        },
{
    let mut out: Vec<TypeParam> = Vec::new();
    match type_params {
        Some(ps) => {
            let mut i: usize = 0;
            while i < ps.len()
                invariant
                    i <= ps.len(),
                    type_params_fit(ps@),
                    out@.map_values(|p: TypeParam| p@) == ps@.take(i as int).map_values(
                        |p: TsTypeParameter| ts_type_param(p),
                    ),
                decreases ps.len() - i,
            {
                let p = &ps[i];
                let tp = TypeParam {
                    name: p.name.clone(),
                    constraint: convert_opt_type(&p.constraint),
                    default: convert_opt_type(&p.default),
                };
                let ghost prev = out@;
                out.push(tp);
                assert(out@.map_values(|p: TypeParam| p@) =~= ps@.take(i + 1).map_values(
                    |p: TsTypeParameter| ts_type_param(p),
                )) by {
                    assert(prev.map_values(|p: TypeParam| p@).len() == i);
                    assert forall|j: int| 0 <= j < i implies out@[j]@ == ts_type_param(
                        #[trigger] ps@[j],
                    ) by {
                        assert(prev[j] == out@[j]);
                        assert(prev.map_values(|p: TypeParam| p@)[j] == ps@.take(i as int).map_values(
                            |p: TsTypeParameter| ts_type_param(p),
                        )[j]);
                    }
                }
                i = i + 1;
            }
            assert(ps@.take(ps.len() as int) =~= ps@);
        },
        None => {
            assert(out@.map_values(|p: TypeParam| p@) =~= Seq::<crate::ir::TypeParamV>::empty());
        },
    }
    out
}


// ---------------------------------------------------------------------
// Laws
// ---------------------------------------------------------------------

proof fn lemma_ts_tys_index(s: Seq<TsType>)
    ensures
        ts_tys(s).len() == s.len(),
        forall|i: int| 0 <= i < s.len() ==> #[trigger] ts_tys(s)[i] == ts_ty(s[i]),
    decreases s.len(),
{
    if s.len() > 0 {
        lemma_ts_tys_index(s.drop_last());
        assert forall|i: int| 0 <= i < s.len() implies #[trigger] ts_tys(s)[i] == ts_ty(s[i]) by {
            if i < s.len() - 1 {
                assert(s.drop_last()[i] == s[i]);
            }
        }
    }
}

proof fn lemma_ts_elems_index(s: Seq<TsTupleElement>)
    ensures
        ts_elems(s).len() == s.len(),
        forall|i: int| 0 <= i < s.len() ==> #[trigger] ts_elems(s)[i] == ts_elem(s[i]),
    decreases s.len(),
{
    if s.len() > 0 {
        lemma_ts_elems_index(s.drop_last());
        assert forall|i: int| 0 <= i < s.len() implies #[trigger] ts_elems(s)[i] == ts_elem(s[i]) by {
            if i < s.len() - 1 {
                assert(s.drop_last()[i] == s[i]);
            }
        }
    }
}

/// Conversion keeps the shape of compound types: an intersection
/// becomes the intersection (never a union) of its members, each
/// converted on its own, in order; an array becomes an array of its
/// converted element; a tuple a tuple with one entry per element; a
/// JSDoc `?T` the nullable converted `T`; a function type a function
/// with one parameter per parameter and its converted return type.
pub proof fn law_conversion_keeps_shape(t: TsType)
    ensures
        t matches TsType::IntersectionType(v) ==> (ts_ty(t) matches TyV::Intersection(ms) && ms.len()
            == v@.len() && forall|i: int| 0 <= i < v@.len() ==> ms[i] == ts_ty(v@[i])),
        t matches TsType::ArrayType(e) ==> ts_ty(t) == TyV::Array(Box::new(ts_ty(*e))),
        t matches TsType::TupleType(v) ==> (ts_ty(t) matches TyV::Tuple(ms) && ms.len()
            == v@.len()),
        t matches TsType::JsDocNullableType(e) ==> ts_ty(t) == TyV::Nullable(Box::new(ts_ty(*e))),
        t matches TsType::FunctionType(f) ==> (ts_ty(t) matches TyV::Function(ps, ret) && ps.len()
            == f.params.items@.len() + (if f.params.rest is Some {
            1int
        } else {
            0int
        }) && *ret == ts_ty(*f.return_type)),
{
    match t {
        TsType::IntersectionType(v) => {
            lemma_ts_tys_index(v@);
        },
        TsType::TupleType(v) => {
            lemma_ts_elems_index(v@);
        },
        TsType::FunctionType(f) => {
            lemma_ts_param_items_len(f.params.items@);
            assert(ts_params(f.params).len() == f.params.items@.len() + (if f.params.rest is Some {
                1int
            } else {
                0int
            }));
            assert(ts_ty(t) == TyV::Function(ts_params(f.params), Box::new(ts_ty(*f.return_type))));
        },
        _ => {},
    }
}

proof fn lemma_ts_param_items_len(s: Seq<TsFormalParameter>)
    ensures
        ts_param_items(s).len() == s.len(),
    decreases s.len(),
{
    if s.len() > 0 {
        lemma_ts_param_items_len(s.drop_last());
    }
}

/// The keywords convert to the primitive they name (`never` and
/// `intrinsic` to `any`).
pub proof fn law_keywords_convert_to_primitives()
    ensures
        ts_ty(TsType::AnyKeyword) == TyV::Any,
        ts_ty(TsType::BooleanKeyword) == TyV::Boolean,
        ts_ty(TsType::BigIntKeyword) == TyV::BigInt,
        ts_ty(TsType::NeverKeyword) == TyV::Any,
        ts_ty(TsType::NullKeyword) == TyV::Null,
        ts_ty(TsType::NumberKeyword) == TyV::Number,
        ts_ty(TsType::ObjectKeyword) == TyV::Object,
        ts_ty(TsType::StringKeyword) == TyV::String,
        ts_ty(TsType::SymbolKeyword) == TyV::Symbol,
        ts_ty(TsType::UndefinedKeyword) == TyV::Undefined,
        ts_ty(TsType::UnknownKeyword) == TyV::Unknown,
        ts_ty(TsType::VoidKeyword) == TyV::Void,
{
}


/// The type is `null`, `undefined` or `void`.
pub open spec fn is_nullish(t: TyV) -> bool {
    t is Null || t is Undefined || t is Void
}

proof fn lemma_non_null_arms(ts: Seq<TyV>)
    ensures
        (forall|i: int| 0 <= i < ts.len() ==> !is_nullish(#[trigger] ts[i])) ==> non_null_arms(ts)
            == ts,
        (exists|i: int| 0 <= i < ts.len() && !is_nullish(#[trigger] ts[i])) <==> non_null_arms(
            ts,
        ).len() > 0,
        has_nullish_arm(ts) <==> exists|i: int| 0 <= i < ts.len() && is_nullish(#[trigger] ts[i]),
    decreases ts.len(),
{
    if ts.len() > 0 {
        let p = ts.drop_last();
        lemma_non_null_arms(p);
        if forall|i: int| 0 <= i < ts.len() ==> !is_nullish(#[trigger] ts[i]) {
            assert forall|i: int| 0 <= i < p.len() implies !is_nullish(#[trigger] p[i]) by {
                assert(p[i] == ts[i]);
            }
            assert(!is_nullish(ts[ts.len() - 1]));
            assert(p.push(ts.last()) =~= ts);
        }
        if exists|i: int| 0 <= i < ts.len() && !is_nullish(#[trigger] ts[i]) {
            let i = choose|i: int| 0 <= i < ts.len() && !is_nullish(#[trigger] ts[i]);
            if i < p.len() {
                assert(p[i] == ts[i]);
            }
        }
        if non_null_arms(ts).len() > 0 {
            if non_null_arms(p).len() > 0 {
                let i = choose|i: int| 0 <= i < p.len() && !is_nullish(#[trigger] p[i]);
                assert(ts[i] == p[i]);
            } else {
                assert(!is_nullish(ts[ts.len() - 1]));
            }
        }
    }
}

/// A union converts by its arms: with no `null`, `undefined` or `void`
/// arm and at least two arms it is the union of the converted arms, in
/// order; with such an arm and some other arm it is a nullable type;
/// with only such arms it is `null`.
pub proof fn law_union_conversion(v: Vec<TsType>)
    ensures
        ({
            let ts = ts_tys(v@);
            &&& (v@.len() >= 2 && forall|i: int| 0 <= i < ts.len() ==> !is_nullish(#[trigger] ts[i]))
                ==> ts_ty(TsType::UnionType(v)) == TyV::Union(ts)
            &&& ((exists|i: int| 0 <= i < ts.len() && is_nullish(#[trigger] ts[i])) && (exists|
                i: int,
            | 0 <= i < ts.len() && !is_nullish(#[trigger] ts[i]))) ==> ts_ty(TsType::UnionType(v))
                is Nullable
            &&& (forall|i: int| 0 <= i < ts.len() ==> is_nullish(#[trigger] ts[i])) ==> ts_ty(
                TsType::UnionType(v),
            ) == TyV::Null
        }),
{
    let ts = ts_tys(v@);
    lemma_ts_tys_index(v@);
    lemma_non_null_arms(ts);
    if forall|i: int| 0 <= i < ts.len() ==> is_nullish(#[trigger] ts[i]) {
        if non_null_arms(ts).len() > 0 {
            let i = choose|i: int| 0 <= i < ts.len() && !is_nullish(#[trigger] ts[i]);
        }
    }
}


/// A named type converts by its name: the wrapper names `String`,
/// `Number`, `Boolean`, `Object`, `Symbol` become the primitive,
/// `Function` a function of no parameters returning `any`, a utility
/// type such as `Partial<T>` its first argument, and any other name a
/// reference to that name with its converted type arguments.
pub proof fn law_reference_conversion(n: String, args: Option<Vec<TsType>>)
    ensures
        ({
            let t = TsType::TypeReference(
                TsTypeReference { name: TsTypeName::IdentifierReference(n), type_arguments: args },
            );
            let conv_args = match args {
                Some(v) => ts_tys(v@),
                None => Seq::<TyV>::empty(),
            };
            &&& n@ == "String"@ ==> ts_ty(t) == TyV::String
            &&& n@ == "Number"@ ==> ts_ty(t) == TyV::Number
            &&& n@ == "Boolean"@ ==> ts_ty(t) == TyV::Boolean
            &&& n@ == "Object"@ ==> ts_ty(t) == TyV::Object
            &&& n@ == "Symbol"@ ==> ts_ty(t) == TyV::Symbol
            &&& n@ == "Function"@ ==> ts_ty(t) == TyV::Function(
                Seq::<ParamV>::empty(),
                Box::new(TyV::Any),
            )
            &&& (n@ == "Partial"@ && conv_args.len() > 0) ==> ts_ty(t) == conv_args[0]
            &&& !(n@ == "ArrayBufferView"@ || n@ == "Boolean"@ || n@ == "Number"@ || n@ == "String"@
                || n@ == "Object"@ || n@ == "Symbol"@ || n@ == "Function"@ || is_utility_alias(n@))
                ==> ts_ty(t) == TyV::Reference(seq![n@], conv_args)
        }),
{
    reveal_strlit("ArrayBufferView");
    reveal_strlit("Boolean");
    reveal_strlit("Number");
    reveal_strlit("String");
    reveal_strlit("Object");
    reveal_strlit("Symbol");
    reveal_strlit("Function");
    reveal_strlit("Partial");
    let nm = TsTypeName::IdentifierReference(n);
    assert(name_path(nm) == seq![n@]);
    let t = TsType::TypeReference(TsTypeReference { name: nm, type_arguments: args });
    assert(ts_ty(t) == ts_ref(TsTypeReference { name: nm, type_arguments: args }));
    assert("Boolean"@.len() != "ArrayBufferView"@.len());
    assert("Number"@.len() != "ArrayBufferView"@.len());
    assert("Number"@.len() != "Boolean"@.len());
    assert("String"@.len() != "ArrayBufferView"@.len());
    assert("String"@.len() != "Boolean"@.len());
    assert("String"@[0] != "Number"@[0]);
    assert("Object"@.len() != "ArrayBufferView"@.len());
    assert("Object"@.len() != "Boolean"@.len());
    assert("Object"@[0] != "Number"@[0]);
    assert("Object"@[0] != "String"@[0]);
    assert("Symbol"@.len() != "ArrayBufferView"@.len());
    assert("Symbol"@.len() != "Boolean"@.len());
    assert("Symbol"@[0] != "Number"@[0]);
    assert("Symbol"@[1] != "String"@[1]);
    assert("Symbol"@[0] != "Object"@[0]);
    assert("Function"@.len() != "ArrayBufferView"@.len());
    assert("Function"@.len() != "Boolean"@.len());
    assert("Function"@.len() != "Number"@.len());
    assert("Function"@.len() != "String"@.len());
    assert("Function"@.len() != "Object"@.len());
    assert("Function"@.len() != "Symbol"@.len());
    assert("Partial"@.len() != "ArrayBufferView"@.len());
    assert("Partial"@[0] != "Boolean"@[0]);
    assert("Partial"@.len() != "Number"@.len());
    assert("Partial"@.len() != "String"@.len());
    assert("Partial"@.len() != "Object"@.len());
    assert("Partial"@.len() != "Symbol"@.len());
    assert("Partial"@.len() != "Function"@.len());
    assert(n@ == "String"@ ==> ts_ty(t) == TyV::String);
    assert(n@ == "Number"@ ==> ts_ty(t) == TyV::Number);
    assert(n@ == "Boolean"@ ==> ts_ty(t) == TyV::Boolean);
    assert(n@ == "Object"@ ==> ts_ty(t) == TyV::Object);
    assert(n@ == "Symbol"@ ==> ts_ty(t) == TyV::Symbol);
}


/// Tuple elements convert one by one: an optional element `T?` to a
/// nullable type, a rest element `...T` and a named member `x: T` to the
/// converted `T`; `readonly T` converts as `T`; a string, number or
/// boolean literal type to the same literal.
pub proof fn law_elements_and_literals(e: TsTupleElement, v: Vec<TsTupleElement>, b: TsType, l: TsLiteral)
    ensures
        e matches TsTupleElement::OptionalType(x) ==> ts_elem(e) == TyV::Nullable(Box::new(ts_ty(*x))),
        e matches TsTupleElement::RestType(x) ==> ts_elem(e) == ts_ty(*x),
        e matches TsTupleElement::Type(x) ==> ts_elem(e) == ts_ty(*x),
        ts_ty(TsType::TupleType(v)) matches TyV::Tuple(ms) && ms.len() == v@.len() && forall|i: int|
            0 <= i < v@.len() ==> ms[i] == ts_elem(v@[i]),
        ts_ty(TsType::TypeOperatorType(TsTypeOperator::Readonly, Box::new(b))) == ts_ty(b),
        l matches TsLiteral::String(s) ==> ts_ty(TsType::LiteralType(l)) == TyV::StringLiteral(s@),
        l matches TsLiteral::Numeric(s) ==> ts_ty(TsType::LiteralType(l)) == TyV::NumberLiteral(s@),
        l matches TsLiteral::Boolean(x) ==> ts_ty(TsType::LiteralType(l)) == TyV::BooleanLiteral(x),
{
    lemma_ts_elems_index(v@);
}

} // verus!
