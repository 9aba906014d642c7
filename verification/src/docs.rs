//! JSDoc comments: cleaning the raw comment body, rendering its tags in
//! Rust doc conventions, and collecting the structured `@throws` data.
//!
//! A comment is attached to the AST node whose span starts at the
//! comment's `attached_to` offset; the last JSDoc comment attached to a
//! node is the one that documents it.
//!
//! Every string is modelled by its character sequence.

use vstd::prelude::*;
use vstd::string::*;
use vstd::utf8::{decode_utf8, is_char_boundary};
use crate::ir::{join, Throws, ThrowsV, TyV, TypeRef, tys_view};
use crate::text::{
    chars_of, eq_range, find_char, find_sub, find_sub_in, first_index_of, has_prefix, push_chars,
    push_str, starts_with, string_of, sub_chars, trim, trim_range, bufs_view, split_char, split_on,
    lines, lines_on,
};

verus! {

// ---------------------------------------------------------------------
// Structured JSDoc data
// ---------------------------------------------------------------------

/// Structured JSDoc data extracted alongside the rendered doc comment.
#[derive(Clone, Debug, PartialEq, Eq)]
pub struct JsDocInfo {
    /// Type names mentioned across all `@throws {T}` lines, without
    /// duplicates, in source order.
    pub throws: Vec<String>,
    /// `true` when an `@throws {never}` annotation was seen.
    pub nothrow: bool,
}

/// A TypeScript reference to a bare name.
pub open spec fn ident_ty(name: Seq<char>) -> TyV {
    TyV::Reference(seq![name], Seq::<TyV>::empty())
}

/// What a list of thrown names and the `never` flag mean for the IR:
/// nothing at all, `never` alone, one named type, or a union of them.
pub open spec fn throws_of(names: Seq<Seq<char>>, nothrow: bool) -> ThrowsV {
    if names.len() == 0 {
        if nothrow {
            ThrowsV::Never
        } else {
            ThrowsV::Unannotated
        }
    } else if names.len() == 1 {
        ThrowsV::Type(ident_ty(names[0]))
    } else {
        ThrowsV::Type(TyV::Union(names.map_values(|n: Seq<char>| ident_ty(n))))
    }
}

/// The character sequences of a list of strings.
pub open spec fn strings_view(v: Seq<String>) -> Seq<Seq<char>> {
    v.map_values(|s: String| s@)
}

impl JsDocInfo {
    /// Convert the structured `@throws` info into a [`Throws`] for the IR.
    pub fn throws(&self) -> (r: Throws)
        ensures
            r@ == throws_of(strings_view(self.throws@), self.nothrow),
    {
        let n = self.throws.len();
        if n == 0 {
            if self.nothrow {
                Throws::Never
            } else {
                Throws::Unannotated
            }
        } else if n == 1 {
            Throws::Type(TypeRef::ident(self.throws[0].as_str()))
        } else {
            let mut arms: Vec<TypeRef> = Vec::new();
            let mut i: usize = 0;
            while i < n
                invariant
                    n == self.throws.len(),
                    i <= n,
                    tys_view(arms@) == strings_view(self.throws@).take(i as int).map_values(
                        |s: Seq<char>| ident_ty(s),
                    ),
                decreases n - i,
            {
                let t = TypeRef::ident(self.throws[i].as_str());
                let ghost prev = arms@;
                arms.push(t);
                proof {
                    crate::ir::lemma_tys_view(prev);
                    crate::ir::lemma_tys_view(arms@);
                }
                assert forall|j: int| 0 <= j <= i implies #[trigger] tys_view(arms@)[j]
                    == ident_ty(strings_view(self.throws@)[j]) by {
                    if j < i {
                        assert(tys_view(prev)[j] == strings_view(self.throws@).take(
                            i as int,
                        ).map_values(|s: Seq<char>| ident_ty(s))[j]);
                    }
                }
                assert(tys_view(arms@) =~= strings_view(self.throws@).take(i + 1).map_values(
                    |s: Seq<char>| ident_ty(s),
                ));
                i = i + 1;
            }
            assert(strings_view(self.throws@).take(n as int) =~= strings_view(self.throws@));
            Throws::Type(TypeRef::Union(arms))
        }
    }
}

// ---------------------------------------------------------------------
// Tag parsing
// ---------------------------------------------------------------------

/// Names of TypeScript primitive types, which never name a thrown error
/// type.
pub open spec fn is_primitive_name(s: Seq<char>) -> bool {
    s == "string"@ || s == "number"@ || s == "bigint"@ || s == "boolean"@ || s == "undefined"@
        || s == "null"@ || s == "void"@ || s == "any"@ || s == "unknown"@ || s == "object"@
        || s == "symbol"@ || s == "never"@
}

fn is_lit(v: &Vec<char>, lit: &str) -> (r: bool)
    ensures
        r == (v@ == lit@),
{
    let p = chars_of(lit);
    assert(v@.subrange(0, v@.len() as int) =~= v@);
    eq_range(v, 0, v.len(), &p)
}

fn is_primitive_chars(v: &Vec<char>) -> (r: bool)
    ensures
        r == is_primitive_name(v@),
{
    is_lit(v, "string") || is_lit(v, "number") || is_lit(v, "bigint") || is_lit(v, "boolean")
        || is_lit(v, "undefined") || is_lit(v, "null") || is_lit(v, "void") || is_lit(v, "any")
        || is_lit(v, "unknown") || is_lit(v, "object") || is_lit(v, "symbol") || is_lit(
        v,
        "never",
    )
}

/// Whether `s` names a TypeScript primitive type.
pub fn is_primitive_type_name(s: &str) -> (r: bool)
    ensures
        r == is_primitive_name(s@),
{
    let v = chars_of(s);
    is_primitive_chars(&v)
}

/// `trim` on a whole buffer.
fn trimmed(v: &Vec<char>) -> (r: Vec<char>)
    ensures
        r@ == trim(v@),
{
    let (a, b) = trim_range(v, 0, v.len());
    assert(v@.subrange(0, v@.len() as int) =~= v@);
    sub_chars(v, a, b)
}

/// A `@param` rest string rendered as a Rust argument bullet: an
/// optional `{type}` annotation dropped, then `name - description`,
/// `name description` or a bare `name`.
pub open spec fn format_param_spec(rest: Seq<char>) -> Seq<char> {
    let r = trim(rest);
    let r2 = if r.len() > 0 && r[0] == '{' {
        match first_index_of(r, '}') {
            Some(e) => trim(r.skip(e + 1)),
            None => r,
        }
    } else {
        r
    };
    match find_sub(r2, " - "@) {
        Some(k) => "* `"@ + trim(r2.take(k)) + "` - "@ + trim(r2.skip(k + " - "@.len())),
        None => match first_index_of(r2, ' ') {
            Some(k) => "* `"@ + trim(r2.take(k)) + "` - "@ + trim(r2.skip(k + 1)),
            None => "* `"@ + r2 + "`"@,
        },
    }
}

fn format_param_chars(rest: &Vec<char>) -> (r: Vec<char>)
    ensures
        r@ == format_param_spec(rest@),
{
    let r = trimmed(rest);
    let r2 = if r.len() > 0 && r[0] == '{' {
        match find_char(&r, 0, r.len(), '}') {
            Some(e) => {
                assert(r@.subrange(0, r@.len() as int) =~= r@);
                let tail = sub_chars(&r, e + 1, r.len());
                assert(tail@ =~= r@.skip(e + 1));
                trimmed(&tail)
            },
            None => {
                assert(r@.subrange(0, r@.len() as int) =~= r@);
                r
            },
        }
    } else {
        r
    };
    let dash = chars_of(" - ");
    assert(r2@.subrange(0, r2@.len() as int) =~= r2@);
    let mut out: Vec<char> = Vec::new();
    push_str(&mut out, "* `");
    match find_sub_in(&r2, 0, r2.len(), &dash) {
        Some(k) => {
            proof {
                crate::text::lemma_find_sub_bounds(r2@, dash@);
            }
            let name = sub_chars(&r2, 0, k);
            let desc = sub_chars(&r2, k + dash.len(), r2.len());
            assert(name@ =~= r2@.take(k as int));
            assert(desc@ =~= r2@.skip(k + dash@.len()));
            let name = trimmed(&name);
            let desc = trimmed(&desc);
            push_chars(&mut out, &name);
            push_str(&mut out, "` - ");
            push_chars(&mut out, &desc);
        },
        None => match find_char(&r2, 0, r2.len(), ' ') {
            Some(k) => {
                let name = sub_chars(&r2, 0, k);
                let desc = sub_chars(&r2, k + 1, r2.len());
                assert(name@ =~= r2@.take(k as int));
                assert(desc@ =~= r2@.skip(k + 1));
                let name = trimmed(&name);
                let desc = trimmed(&desc);
                push_chars(&mut out, &name);
                push_str(&mut out, "` - ");
                push_chars(&mut out, &desc);
            },
            None => {
                push_chars(&mut out, &r2);
                push_str(&mut out, "`");
            },
        },
    }
    out
}

/// Format a `@param` rest string into a Rust-style argument list item.
pub fn format_param(rest: &str) -> (r: String)
    ensures
        r@ == format_param_spec(rest@),
{
    let v = chars_of(rest);
    let out = format_param_chars(&v);
    string_of(&out)
}

/// What one `@throws` tag says: the named types, whether it declares
/// `never` alone, and the line it contributes to the rendered Errors
/// section.
pub struct ThrowsTagV {
    pub types: Seq<Seq<char>>,
    pub nothrow: bool,
    pub prose: Seq<char>,
}

/// The arms of a `{A | B}` annotation that name a thrown type: trimmed,
/// non-empty and not a primitive (nor `never`).
pub open spec fn thrown_names(arms: Seq<Seq<char>>) -> Seq<Seq<char>>
    decreases arms.len(),
{
    if arms.len() == 0 {
        seq![]
    } else {
        let rest = thrown_names(arms.drop_last());
        let a = trim(arms.last());
        if a.len() > 0 && a != "never"@ && !is_primitive_name(a) {
            rest.push(a)
        } else {
            rest
        }
    }
}

/// Some arm of the annotation is `never`.
pub open spec fn saw_never(arms: Seq<Seq<char>>) -> bool
    decreases arms.len(),
{
    arms.len() > 0 && (trim(arms.last()) == "never"@ || saw_never(arms.drop_last()))
}

/// The contents of a `@throws` tag: `{T}`, `{A | B}`, `{@link T}` or
/// `{never}` followed by optional prose, or prose alone (also when the
/// closing brace is missing).
pub open spec fn parse_throws_spec(rest: Seq<char>) -> ThrowsTagV {
    let t = trim(rest);
    let stripped = t.drop_first();
    if t.len() > 0 && t[0] == '{' && first_index_of(stripped, '}') is Some {
        let end = first_index_of(stripped, '}')->0;
        let inner0 = trim(stripped.take(end));
        let after = trim(stripped.skip(end + 1));
        let inner = if starts_with(inner0, "@link "@) {
            trim(inner0.skip("@link "@.len() as int))
        } else {
            inner0
        };
        let arms = split_char(inner, '|');
        let names = thrown_names(arms);
        ThrowsTagV {
            types: names,
            nothrow: saw_never(arms) && names.len() == 0,
            prose: if after.len() == 0 {
                "`"@ + inner + "`"@
            } else {
                "`"@ + inner + "` — "@ + after
            },
        }
    } else {
        ThrowsTagV { types: seq![], nothrow: false, prose: t }
    }
}

/// Result of parsing one `@throws` tag's contents.
struct ParsedThrows {
    types: Vec<Vec<char>>,
    nothrow: bool,
    prose: Vec<char>,
}

fn parse_throws_tag(rest: &Vec<char>) -> (r: ParsedThrows)
    ensures
        bufs_view(r.types@) == parse_throws_spec(rest@).types,
        r.nothrow == parse_throws_spec(rest@).nothrow,
        r.prose@ == parse_throws_spec(rest@).prose,
{
    let t = trimmed(rest);
    if t.len() > 0 && t[0] == '{' {
        let ghost stripped = t@.drop_first();
        assert(t@.subrange(1, t@.len() as int) =~= stripped);
        if let Some(e) = find_char(&t, 1, t.len(), '}') {
            let end = e - 1;
            proof {
                crate::text::lemma_first_index_of_bounds(stripped, '}');
            }
            let head = sub_chars(&t, 1, e);
            assert(head@ =~= stripped.take(end as int));
            let tail = sub_chars(&t, e + 1, t.len());
            assert(tail@ =~= stripped.skip(end + 1));
            let inner0 = trimmed(&head);
            let after = trimmed(&tail);
            let link = chars_of("@link ");
            assert(inner0@.subrange(0, inner0@.len() as int) =~= inner0@);
            let inner = if has_prefix(&inner0, 0, inner0.len(), &link) {
                let x = sub_chars(&inner0, link.len(), inner0.len());
                assert(x@ =~= inner0@.skip(link@.len() as int));
                trimmed(&x)
            } else {
                inner0
            };
            let arms = split_on(&inner, '|');
            let mut names: Vec<Vec<char>> = Vec::new();
            let mut never = false;
            let mut i: usize = 0;
            while i < arms.len()
                invariant
                    i <= arms.len(),
                    bufs_view(names@) == thrown_names(bufs_view(arms@).take(i as int)),
                    never == saw_never(bufs_view(arms@).take(i as int)),
                decreases arms.len() - i,
            {
                let ghost av = bufs_view(arms@);
                assert(av.take(i + 1).drop_last() =~= av.take(i as int));
                assert(av.take(i + 1).last() == arms@[i as int]@);
                let a = trimmed(&arms[i]);
                let is_never = is_lit(&a, "never");
                if is_never {
                    never = true;
                }
                if a.len() > 0 && !is_never && !is_primitive_chars(&a) {
                    let ghost before = names@;
                    names.push(a);
                    assert(bufs_view(names@) =~= bufs_view(before).push(a@));
                }
                i = i + 1;
            }
            assert(bufs_view(arms@).take(arms.len() as int) =~= bufs_view(arms@));
            let mut prose: Vec<char> = Vec::new();
            push_str(&mut prose, "`");
            push_chars(&mut prose, &inner);
            if after.len() == 0 {
                push_str(&mut prose, "`");
            } else {
                push_str(&mut prose, "` — ");
                push_chars(&mut prose, &after);
            }
            let nothrow = never && names.len() == 0;
            return ParsedThrows { types: names, nothrow, prose };
        }
    }
    ParsedThrows { types: Vec::new(), nothrow: false, prose: t }
}

// ---------------------------------------------------------------------
// Reading the lines of a comment
// ---------------------------------------------------------------------

/// One comment line with its indentation and leading `* ` (or `*`)
/// removed.
pub open spec fn clean_line(l: Seq<char>) -> Seq<char> {
    let t = trim(l);
    if starts_with(t, "* "@) {
        t.skip("* "@.len() as int)
    } else if t.len() > 0 && t[0] == '*' {
        t.skip(1)
    } else {
        t
    }
}

/// `ls` without its leading empty lines.
pub open spec fn drop_leading_empty(ls: Seq<Seq<char>>) -> Seq<Seq<char>>
    decreases ls.len(),
{
    if ls.len() > 0 && ls[0].len() == 0 {
        drop_leading_empty(ls.drop_first())
    } else {
        ls
    }
}

/// `ls` without its trailing empty lines.
pub open spec fn drop_trailing_empty(ls: Seq<Seq<char>>) -> Seq<Seq<char>>
    decreases ls.len(),
{
    if ls.len() > 0 && ls.last().len() == 0 {
        drop_trailing_empty(ls.drop_last())
    } else {
        ls
    }
}

/// `ls` without empty lines at either end.
pub open spec fn trim_blank_ends(ls: Seq<Seq<char>>) -> Seq<Seq<char>> {
    drop_trailing_empty(drop_leading_empty(ls))
}

/// The cleaned, non-blank-ended lines of a raw comment body.
pub open spec fn cleaned_lines(raw: Seq<char>) -> Seq<Seq<char>> {
    trim_blank_ends(lines(raw).map_values(|l: Seq<char>| clean_line(l)))
}

/// The parts of a JSDoc comment, collected line by line.
pub struct DocParts {
    /// Description lines, unknown tags included, in order.
    pub description: Seq<Seq<char>>,
    /// Rendered `@param` bullets.
    pub params: Seq<Seq<char>>,
    /// The text of the last `@returns` / `@return` tag.
    pub returns: Option<Seq<char>>,
    /// Lines of the Errors section, one per `@throws` tag that is not
    /// `{never}`.
    pub errors: Seq<Seq<char>>,
    /// The non-empty `@example` blocks.
    pub examples: Seq<Seq<Seq<char>>>,
    /// Thrown type names without duplicates, in order of appearance.
    pub throws: Seq<Seq<char>>,
    /// Some `@throws {never}` was seen.
    pub nothrow: bool,
    /// The lines of the `@example` block being read, if any.
    pub example: Option<Seq<Seq<char>>>,
}

pub open spec fn empty_parts() -> DocParts {
    DocParts {
        description: seq![],
        params: seq![],
        returns: None,
        errors: seq![],
        examples: seq![],
        throws: seq![],
        nothrow: false,
        example: None,
    }
}

/// `xs` followed by the elements of `ys` it does not hold yet.
pub open spec fn dedup_append(xs: Seq<Seq<char>>, ys: Seq<Seq<char>>) -> Seq<Seq<char>>
    decreases ys.len(),
{
    if ys.len() == 0 {
        xs
    } else {
        let a = dedup_append(xs, ys.drop_last());
        if a.contains(ys.last()) {
            a
        } else {
            a.push(ys.last())
        }
    }
}

/// End the `@example` block being read: keep it, blank ends trimmed,
/// unless nothing is left.
pub open spec fn close_example(p: DocParts) -> DocParts {
    match p.example {
        Some(code) => {
            let c = trim_blank_ends(code);
            DocParts {
                description: p.description,
                params: p.params,
                returns: p.returns,
                errors: p.errors,
                examples: if c.len() > 0 {
                    p.examples.push(c)
                } else {
                    p.examples
                },
                throws: p.throws,
                nothrow: p.nothrow,
                example: None,
            }
        },
        None => p,
    }
}

/// Read one line outside an `@example` block.
pub open spec fn read_tag(p: DocParts, line: Seq<char>) -> DocParts {
    if starts_with(line, "@param "@) {
        DocParts {
            params: p.params.push(format_param_spec(line.skip("@param "@.len() as int))),
            ..p
        }
    } else if starts_with(line, "@returns "@) {
        DocParts { returns: Some(line.skip("@returns "@.len() as int)), ..p }
    } else if starts_with(line, "@return "@) {
        DocParts { returns: Some(line.skip("@return "@.len() as int)), ..p }
    } else if starts_with(line, "@throws "@) {
        let pt = parse_throws_spec(line.skip("@throws "@.len() as int));
        DocParts {
            throws: dedup_append(p.throws, pt.types),
            nothrow: p.nothrow || pt.nothrow,
            errors: if pt.nothrow {
                p.errors
            } else {
                p.errors.push(pt.prose)
            },
            ..p
        }
    } else if line == "@example"@ {
        DocParts { example: Some(seq![]), ..p }
    } else {
        DocParts { description: p.description.push(line), ..p }
    }
}

/// Read one line: inside an `@example` block every line up to the next
/// one starting with `@` belongs to the block.
pub open spec fn read_line(p: DocParts, line: Seq<char>) -> DocParts {
    match p.example {
        Some(code) => if line.len() > 0 && line[0] == '@' {
            read_tag(close_example(p), line)
        } else {
            DocParts { example: Some(code.push(line)), ..p }
        },
        None => read_tag(p, line),
    }
}

pub open spec fn read_lines(ls: Seq<Seq<char>>) -> DocParts
    decreases ls.len(),
{
    if ls.len() == 0 {
        empty_parts()
    } else {
        read_line(read_lines(ls.drop_last()), ls.last())
    }
}

/// The parts of a comment made of the cleaned lines `ls`.
pub open spec fn doc_parts(ls: Seq<Seq<char>>) -> DocParts {
    close_example(read_lines(ls))
}

// ---------------------------------------------------------------------
// Rendering
// ---------------------------------------------------------------------

/// A blank separator line before a new section, unless the output is
/// empty or already ends in a blank line.
pub open spec fn sep(out: Seq<Seq<char>>) -> Seq<Seq<char>> {
    if out.len() > 0 && out.last().len() > 0 {
        out.push(seq![])
    } else {
        out
    }
}

pub open spec fn bullets(ls: Seq<Seq<char>>) -> Seq<Seq<char>> {
    ls.map_values(|l: Seq<char>| "* "@ + l)
}

/// `out` followed by one `## Example` section per block, each a fenced
/// `js` code block.
pub open spec fn render_examples(out: Seq<Seq<char>>, exs: Seq<Seq<Seq<char>>>) -> Seq<
    Seq<char>,
>
    decreases exs.len(),
{
    if exs.len() == 0 {
        out
    } else {
        sep(render_examples(out, exs.drop_last())) + seq!["## Example"@, seq![], "```js"@]
            + exs.last() + seq!["```"@]
    }
}

/// The rendered lines: the description, the argument bullets, the
/// `Returns:` line, the Errors section and the examples, separated by
/// blank lines, with no blank line at the end.
pub open spec fn render_lines(p: DocParts) -> Seq<Seq<char>> {
    let o1 = p.description;
    let o2 = if p.params.len() > 0 {
        sep(o1) + p.params
    } else {
        o1
    };
    let o3 = match p.returns {
        Some(r) => sep(o2).push("Returns: "@ + r),
        None => o2,
    };
    let o4 = if p.errors.len() > 0 {
        sep(o3) + seq!["## Errors"@, seq![]] + bullets(p.errors)
    } else {
        o3
    };
    drop_trailing_empty(render_examples(o4, p.examples))
}

/// The rendered doc text of a raw comment body.
pub open spec fn jsdoc_text(raw: Seq<char>) -> Seq<char> {
    join(render_lines(doc_parts(cleaned_lines(raw))), "\n"@)
}

// ---------------------------------------------------------------------
// Executable reading and rendering
// ---------------------------------------------------------------------

fn clean_line_chars(l: &Vec<char>) -> (r: Vec<char>)
    ensures
        r@ == clean_line(l@),
{
    let t = trimmed(l);
    let star = chars_of("* ");
    assert(t@.subrange(0, t@.len() as int) =~= t@);
    if has_prefix(&t, 0, t.len(), &star) {
        let r = sub_chars(&t, star.len(), t.len());
        assert(r@ =~= t@.skip(star@.len() as int));
        r
    } else if t.len() > 0 && t[0] == '*' {
        let r = sub_chars(&t, 1, t.len());
        assert(r@ =~= t@.skip(1));
        r
    } else {
        t
    }
}

/// Remove the empty lines at both ends of `v`.
fn drop_blank_ends(v: &mut Vec<Vec<char>>)
    ensures
        bufs_view(final(v)@) == trim_blank_ends(bufs_view(old(v)@)),
{
    while v.len() > 0 && v[0].len() == 0
        invariant
            drop_leading_empty(bufs_view(old(v)@)) == drop_leading_empty(bufs_view(v@)),
        decreases v.len(),
    {
        let ghost prev = v@;
        v.remove(0);
        assert(bufs_view(v@) =~= bufs_view(prev).drop_first());
    }
    assert(drop_leading_empty(bufs_view(v@)) == bufs_view(v@));
    while v.len() > 0 && v[v.len() - 1].len() == 0
        invariant
            trim_blank_ends(bufs_view(old(v)@)) == drop_trailing_empty(bufs_view(v@)),
        decreases v.len(),
    {
        let ghost prev = v@;
        v.pop();
        assert(bufs_view(v@) =~= bufs_view(prev).drop_last());
    }
}

/// Whether `v` holds a buffer equal to `x`.
fn bufs_contain(v: &Vec<Vec<char>>, x: &Vec<char>) -> (r: bool)
    ensures
        r == bufs_view(v@).contains(x@),
{
    let mut i: usize = 0;
    while i < v.len()
        invariant
            i <= v.len(),
            forall|j: int| 0 <= j < i ==> #[trigger] bufs_view(v@)[j] != x@,
        decreases v.len() - i,
    {
        assert(v[i as int]@.subrange(0, v[i as int]@.len() as int) =~= v[i as int]@);
        if eq_range(&v[i], 0, v[i].len(), x) {
            assert(bufs_view(v@)[i as int] == x@);
            return true;
        }
        i = i + 1;
    }
    false
}

/// A copy of a buffer.
fn copy_buf(b: &Vec<char>) -> (r: Vec<char>)
    ensures
        r@ == b@,
{
    assert(b@.subrange(0, b@.len() as int) =~= b@);
    sub_chars(b, 0, b.len())
}

/// Append copies of the buffers of `xs` to `out`.
fn append_bufs(out: &mut Vec<Vec<char>>, xs: &Vec<Vec<char>>)
    ensures
        bufs_view(final(out)@) == bufs_view(old(out)@) + bufs_view(xs@),
{
    let ghost start = bufs_view(out@);
    let mut i: usize = 0;
    while i < xs.len()
        invariant
            i <= xs.len(),
            bufs_view(out@) == start + bufs_view(xs@).take(i as int),
        decreases xs.len() - i,
    {
        let c = copy_buf(&xs[i]);
        let ghost prev = out@;
        out.push(c);
        assert(bufs_view(out@) =~= bufs_view(prev).push(c@));
        assert(bufs_view(xs@).take(i + 1) =~= bufs_view(xs@).take(i as int).push(xs@[i as int]@));
        i = i + 1;
    }
    assert(bufs_view(xs@).take(xs.len() as int) =~= bufs_view(xs@));
}

/// Append `dedup_append`'s new elements of `ys` to `xs`.
fn append_new(xs: &mut Vec<Vec<char>>, ys: &Vec<Vec<char>>)
    ensures
        bufs_view(final(xs)@) == dedup_append(bufs_view(old(xs)@), bufs_view(ys@)),
{
    let ghost start = bufs_view(xs@);
    let mut i: usize = 0;
    while i < ys.len()
        invariant
            i <= ys.len(),
            bufs_view(xs@) == dedup_append(start, bufs_view(ys@).take(i as int)),
        decreases ys.len() - i,
    {
        let ghost yv = bufs_view(ys@);
        assert(yv.take(i + 1).drop_last() =~= yv.take(i as int));
        assert(yv.take(i + 1).last() == ys@[i as int]@);
        if !bufs_contain(xs, &ys[i]) {
            let c = copy_buf(&ys[i]);
            let ghost prev = xs@;
            xs.push(c);
            assert(bufs_view(xs@) =~= bufs_view(prev).push(c@));
        }
        i = i + 1;
    }
    assert(bufs_view(ys@).take(ys.len() as int) =~= bufs_view(ys@));
}

/// The parts of a comment being read.
struct DocBuilder {
    description: Vec<Vec<char>>,
    params: Vec<Vec<char>>,
    returns: Option<Vec<char>>,
    errors: Vec<Vec<char>>,
    examples: Vec<Vec<Vec<char>>>,
    throws: Vec<Vec<char>>,
    nothrow: bool,
    example: Option<Vec<Vec<char>>>,
}

spec fn opt_buf(o: Option<Vec<char>>) -> Option<Seq<char>> {
    match o {
        Some(b) => Some(b@),
        None => None,
    }
}

spec fn blocks_view(v: Seq<Vec<Vec<char>>>) -> Seq<Seq<Seq<char>>> {
    v.map_values(|b: Vec<Vec<char>>| bufs_view(b@))
}

impl DocBuilder {
    spec fn parts(&self) -> DocParts {
        DocParts {
            description: bufs_view(self.description@),
            params: bufs_view(self.params@),
            returns: opt_buf(self.returns),
            errors: bufs_view(self.errors@),
            examples: blocks_view(self.examples@),
            throws: bufs_view(self.throws@),
            nothrow: self.nothrow,
            example: match self.example {
                Some(b) => Some(bufs_view(b@)),
                None => None,
            },
        }
    }

    fn new() -> (r: DocBuilder)
        ensures
            r.parts() == empty_parts(),
    {
        let r = DocBuilder {
            description: Vec::new(),
            params: Vec::new(),
            returns: None,
            errors: Vec::new(),
            examples: Vec::new(),
            throws: Vec::new(),
            nothrow: false,
            example: None,
        };
        assert(r.parts().description =~= Seq::<Seq<char>>::empty());
        assert(r.parts().params =~= Seq::<Seq<char>>::empty());
        assert(r.parts().errors =~= Seq::<Seq<char>>::empty());
        assert(r.parts().examples =~= Seq::<Seq<Seq<char>>>::empty());
        assert(r.parts().throws =~= Seq::<Seq<char>>::empty());
        r
    }

    fn close_example(&mut self)
        ensures
            final(self).parts() == close_example(old(self).parts()),
    {
        match self.example.take() {
            Some(code) => {
                let mut code = code;
                drop_blank_ends(&mut code);
                if code.len() > 0 {
                    let ghost prev = self.examples@;
                    self.examples.push(code);
                    assert(blocks_view(self.examples@) =~= blocks_view(prev).push(
                        bufs_view(code@),
                    ));
                }
            },
            None => {},
        }
    }

    /// Strip `pat` from the front of `line` when it starts with it.
    fn after_prefix(line: &Vec<char>, pat: &str) -> (r: Option<Vec<char>>)
        ensures
            match r {
                Some(x) => starts_with(line@, pat@) && x@ == line@.skip(pat@.len() as int),
                None => !starts_with(line@, pat@),
            },
    {
        let p = chars_of(pat);
        assert(line@.subrange(0, line@.len() as int) =~= line@);
        if has_prefix(line, 0, line.len(), &p) {
            let x = sub_chars(line, p.len(), line.len());
            assert(x@ =~= line@.skip(p@.len() as int));
            Some(x)
        } else {
            None
        }
    }

    fn read_tag(&mut self, line: &Vec<char>)
        requires
            old(self).example is None,
        ensures
            final(self).parts() == read_tag(old(self).parts(), line@),
    {
        if let Some(rest) = Self::after_prefix(line, "@param ") {
            let b = format_param_chars(&rest);
            let ghost prev = self.params@;
            self.params.push(b);
            assert(bufs_view(self.params@) =~= bufs_view(prev).push(b@));
        } else if let Some(rest) = Self::after_prefix(line, "@returns ") {
            self.returns = Some(rest);
        } else if let Some(rest) = Self::after_prefix(line, "@return ") {
            self.returns = Some(rest);
        } else if let Some(rest) = Self::after_prefix(line, "@throws ") {
            let parsed = parse_throws_tag(&rest);
            append_new(&mut self.throws, &parsed.types);
            if parsed.nothrow {
                self.nothrow = true;
            } else {
                let ghost prev = self.errors@;
                self.errors.push(parsed.prose);
                assert(bufs_view(self.errors@) =~= bufs_view(prev).push(parsed.prose@));
            }
        } else if is_lit(line, "@example") {
            self.example = Some(Vec::new());
            assert(bufs_view(Seq::<Vec<char>>::empty()) =~= Seq::<Seq<char>>::empty());
        } else {
            let b = copy_buf(line);
            let ghost prev = self.description@;
            self.description.push(b);
            assert(bufs_view(self.description@) =~= bufs_view(prev).push(b@));
        }
    }

    fn read_line(&mut self, line: &Vec<char>)
        ensures
            final(self).parts() == read_line(old(self).parts(), line@),
    {
        if self.example.is_some() {
            if line.len() > 0 && line[0] == '@' {
                self.close_example();
                self.read_tag(line);
            } else {
                let b = copy_buf(line);
                match self.example.take() {
                    Some(code) => {
                        let mut code = code;
                        let ghost prev = code@;
                        code.push(b);
                        assert(bufs_view(code@) =~= bufs_view(prev).push(b@));
                        self.example = Some(code);
                    },
                    None => {},
                }
            }
        } else {
            self.read_tag(line);
        }
    }
}

/// Append a separator line to `out` as `sep` does.
fn push_sep(out: &mut Vec<Vec<char>>)
    ensures
        bufs_view(final(out)@) == sep(bufs_view(old(out)@)),
{
    if out.len() > 0 && out[out.len() - 1].len() > 0 {
        let ghost prev = out@;
        out.push(Vec::new());
        assert(bufs_view(out@) =~= bufs_view(prev).push(seq![]));
    }
}

/// Append one line made of the characters of `s`.
fn push_line(out: &mut Vec<Vec<char>>, s: &str)
    ensures
        bufs_view(final(out)@) == bufs_view(old(out)@).push(s@),
{
    let b = chars_of(s);
    let ghost prev = out@;
    out.push(b);
    assert(bufs_view(out@) =~= bufs_view(prev).push(s@));
}

/// Join lines with newlines.
fn join_lines(ls: &Vec<Vec<char>>) -> (r: Vec<char>)
    ensures
        r@ == join(bufs_view(ls@), "\n"@),
{
    let mut out: Vec<char> = Vec::new();
    let mut i: usize = 0;
    while i < ls.len()
        invariant
            i <= ls.len(),
            out@ == join(bufs_view(ls@).take(i as int), "\n"@),
        decreases ls.len() - i,
    {
        let ghost lv = bufs_view(ls@);
        proof {
            crate::ir::lemma_join_push(lv.take(i as int), "\n"@, lv[i as int]);
        }
        assert(lv.take(i + 1) =~= lv.take(i as int).push(lv[i as int]));
        if i > 0 {
            push_str(&mut out, "\n");
        }
        push_chars(&mut out, &ls[i]);
        i = i + 1;
    }
    assert(bufs_view(ls@).take(ls.len() as int) =~= bufs_view(ls@));
    out
}

/// The lines of a rendered doc, as `render_lines` gives them.
fn render(p: &DocBuilder) -> (r: Vec<Vec<char>>)
    ensures
        bufs_view(r@) == render_lines(p.parts()),
{
    let mut out: Vec<Vec<char>> = Vec::new();
    append_bufs(&mut out, &p.description);
    assert(bufs_view(out@) =~= bufs_view(p.description@));
    if p.params.len() > 0 {
        push_sep(&mut out);
        append_bufs(&mut out, &p.params);
    }
    match &p.returns {
        Some(ret) => {
            push_sep(&mut out);
            let mut line: Vec<char> = Vec::new();
            push_str(&mut line, "Returns: ");
            push_chars(&mut line, ret);
            let ghost prev = out@;
            out.push(line);
            assert(bufs_view(out@) =~= bufs_view(prev).push(line@));
        },
        None => {},
    }
    if p.errors.len() > 0 {
        push_sep(&mut out);
        let ghost o3 = bufs_view(out@);
        push_line(&mut out, "## Errors");
        let ghost prev = out@;
        out.push(Vec::new());
        assert(bufs_view(out@) =~= bufs_view(prev).push(seq![]));
        let mut i: usize = 0;
        while i < p.errors.len()
            invariant
                i <= p.errors.len(),
                bufs_view(out@) == o3 + seq!["## Errors"@, seq![]] + bullets(
                    bufs_view(p.errors@),
                ).take(i as int),
            decreases p.errors.len() - i,
        {
            let mut line: Vec<char> = Vec::new();
            push_str(&mut line, "* ");
            push_chars(&mut line, &p.errors[i]);
            let ghost prev = out@;
            out.push(line);
            assert(bufs_view(out@) =~= bufs_view(prev).push(line@));
            assert(bullets(bufs_view(p.errors@)).take(i + 1) =~= bullets(
                bufs_view(p.errors@),
            ).take(i as int).push(line@));
            i = i + 1;
        }
        assert(bullets(bufs_view(p.errors@)).take(p.errors.len() as int) =~= bullets(
            bufs_view(p.errors@),
        ));
    }
    let ghost o4 = bufs_view(out@);
    let mut k: usize = 0;
    while k < p.examples.len()
        invariant
            k <= p.examples.len(),
            bufs_view(out@) == render_examples(o4, blocks_view(p.examples@).take(k as int)),
        decreases p.examples.len() - k,
    {
        let ghost exs = blocks_view(p.examples@);
        assert(exs.take(k + 1).drop_last() =~= exs.take(k as int));
        assert(exs.take(k + 1).last() == bufs_view(p.examples@[k as int]@));
        push_sep(&mut out);
        let ghost s1 = bufs_view(out@);
        push_line(&mut out, "## Example");
        let ghost prev = out@;
        out.push(Vec::new());
        assert(bufs_view(out@) =~= bufs_view(prev).push(seq![]));
        push_line(&mut out, "```js");
        append_bufs(&mut out, &p.examples[k]);
        push_line(&mut out, "```");
        assert(bufs_view(out@) =~= s1 + seq!["## Example"@, seq![], "```js"@] + bufs_view(
            p.examples@[k as int]@,
        ) + seq!["```"@]);
        k = k + 1;
    }
    assert(blocks_view(p.examples@).take(p.examples.len() as int) =~= blocks_view(
        p.examples@,
    ));
    let ghost o5 = bufs_view(out@);
    while out.len() > 0 && out[out.len() - 1].len() == 0
        invariant
            drop_trailing_empty(o5) == drop_trailing_empty(bufs_view(out@)),
        decreases out.len(),
    {
        let ghost prev = out@;
        out.pop();
        assert(bufs_view(out@) =~= bufs_view(prev).drop_last());
    }
    out
}

/// Read cleaned comment lines and render them: description, argument
/// bullets, `Returns:` line, Errors section and examples, with the
/// structured `@throws` data beside the text.
fn convert_jsdoc_tags(lines: &Vec<Vec<char>>) -> (r: (Vec<char>, DocBuilder))
    ensures
        r.0@ == join(render_lines(doc_parts(bufs_view(lines@))), "\n"@),
        r.1.parts() == doc_parts(bufs_view(lines@)),
{
    let mut p = DocBuilder::new();
    let mut i: usize = 0;
    while i < lines.len()
        invariant
            i <= lines.len(),
            p.parts() == read_lines(bufs_view(lines@).take(i as int)),
        decreases lines.len() - i,
    {
        let ghost lv = bufs_view(lines@);
        assert(lv.take(i + 1).drop_last() =~= lv.take(i as int));
        assert(lv.take(i + 1).last() == lines@[i as int]@);
        p.read_line(&lines[i]);
        i = i + 1;
    }
    assert(bufs_view(lines@).take(lines.len() as int) =~= bufs_view(lines@));
    p.close_example();
    let out = render(&p);
    let text = join_lines(&out);
    (text, p)
}

/// The text and the `@throws` data of a raw comment body.
pub open spec fn jsdoc_info(raw: Seq<char>) -> (Seq<Seq<char>>, bool) {
    let p = doc_parts(cleaned_lines(raw));
    (p.throws, p.nothrow)
}

/// Clean a raw JSDoc body (the text between `/**` and `*/`) and convert
/// it to Rust doc conventions, collecting the structured `@throws` info.
pub fn clean_jsdoc_with_info(raw: &str) -> (r: (String, JsDocInfo))
    ensures
        r.0@ == jsdoc_text(raw@),
        strings_view(r.1.throws@) == jsdoc_info(raw@).0,
        r.1.nothrow == jsdoc_info(raw@).1,
{
    let raw_v = chars_of(raw);
    let ls = lines_on(&raw_v);
    let mut cleaned: Vec<Vec<char>> = Vec::new();
    let mut i: usize = 0;
    while i < ls.len()
        invariant
            i <= ls.len(),
            cleaned.len() == i,
            bufs_view(cleaned@) == bufs_view(ls@).take(i as int).map_values(
                |l: Seq<char>| clean_line(l),
            ),
        decreases ls.len() - i,
    {
        let c = clean_line_chars(&ls[i]);
        let ghost prev = cleaned@;
        cleaned.push(c);
        assert forall|j: int| 0 <= j <= i implies #[trigger] bufs_view(cleaned@)[j] == clean_line(
            bufs_view(ls@)[j],
        ) by {
            if j < i {
                assert(bufs_view(prev)[j] == bufs_view(ls@).take(i as int).map_values(
                    |l: Seq<char>| clean_line(l),
                )[j]);
            }
        }
        assert(bufs_view(cleaned@) =~= bufs_view(ls@).take(i + 1).map_values(
            |l: Seq<char>| clean_line(l),
        ));
        i = i + 1;
    }
    assert(bufs_view(ls@).take(ls.len() as int) =~= bufs_view(ls@));
    drop_blank_ends(&mut cleaned);
    let (text, p) = convert_jsdoc_tags(&cleaned);
    let mut throws: Vec<String> = Vec::new();
    let mut k: usize = 0;
    while k < p.throws.len()
        invariant
            k <= p.throws.len(),
            throws.len() == k,
            strings_view(throws@) == bufs_view(p.throws@).take(k as int),
        decreases p.throws.len() - k,
    {
        let s = string_of(&p.throws[k]);
        let ghost prev = throws@;
        throws.push(s);
        assert forall|j: int| 0 <= j <= k implies #[trigger] strings_view(throws@)[j] == bufs_view(
            p.throws@,
        )[j] by {
            if j < k {
                assert(strings_view(prev)[j] == bufs_view(p.throws@).take(k as int)[j]);
            }
        }
        assert(strings_view(throws@) =~= bufs_view(p.throws@).take(k + 1));
        k = k + 1;
    }
    assert(bufs_view(p.throws@).take(p.throws.len() as int) =~= bufs_view(p.throws@));
    (string_of(&text), JsDocInfo { throws, nothrow: p.nothrow })
}

/// Clean a raw JSDoc body and convert it to Rust doc conventions.
pub fn clean_jsdoc(raw: &str) -> (r: String)
    ensures
        r@ == jsdoc_text(raw@),
{
    clean_jsdoc_with_info(raw).0
}

// ---------------------------------------------------------------------
// Comments of a source file
// ---------------------------------------------------------------------

/// A comment of a source file, as the parser reports it.
#[derive(Clone, Copy, Debug, PartialEq, Eq)]
pub struct Comment {
    /// Byte offset of the token the comment leads.
    pub attached_to: u32,
    /// A `/** ... */` comment.
    pub jsdoc: bool,
    /// Byte offset where the comment's content (between its delimiters)
    /// starts.
    pub content_start: u32,
    /// Byte offset where the comment's content ends.
    pub content_end: u32,
}

/// The index of the last JSDoc comment attached to the node starting at
/// `span`.
pub open spec fn last_attached(cs: Seq<Comment>, span: u32) -> Option<int>
    decreases cs.len(),
{
    if cs.len() == 0 {
        None
    } else if cs.last().attached_to == span && cs.last().jsdoc {
        Some(cs.len() - 1)
    } else {
        last_attached(cs.drop_last(), span)
    }
}

/// The content span of `c` lies in `source` on character boundaries.
pub open spec fn content_ok(source: &str, c: Comment) -> bool {
    let b = source.spec_bytes();
    &&& c.content_start <= c.content_end <= b.len()
    &&& is_char_boundary(b, c.content_start as int)
    &&& is_char_boundary(
        b.subrange(c.content_start as int, b.len() as int),
        c.content_end - c.content_start,
    )
}

/// The text of the content of `c`.
pub open spec fn content_of(source: &str, c: Comment) -> Seq<char> {
    decode_utf8(source.spec_bytes().subrange(c.content_start as int, c.content_end as int))
}

/// JSDoc lookup by span position.
pub struct DocComments<'a> {
    comments: &'a [Comment],
    source: &'a str,
}

impl<'a> DocComments<'a> {
    pub closed spec fn comment_list(&self) -> Seq<Comment> {
        self.comments@
    }

    pub closed spec fn source_text(&self) -> &'a str {
        self.source
    }

    /// The JSDoc comment attached at `span`, if any, lies on character
    /// boundaries of the source.
    pub open spec fn readable_at(&self, span: u32) -> bool {
        match last_attached(self.comment_list(), span) {
            Some(k) => content_ok(self.source_text(), self.comment_list()[k]),
            None => true,
        }
    }

    /// The raw content of the JSDoc comment attached at `span`.
    pub open spec fn attached_text(&self, span: u32) -> Option<Seq<char>> {
        match last_attached(self.comment_list(), span) {
            Some(k) => Some(content_of(self.source_text(), self.comment_list()[k])),
            None => None,
        }
    }

    pub fn new(comments: &'a [Comment], source: &'a str) -> (r: Self)
        ensures
            r.comment_list() == comments@,
            r.source_text() == source,
    {
        DocComments { comments, source }
    }

    /// Find the JSDoc comment attached to the node starting at
    /// `span_start`, cleaned and rendered, with its structured info.
    pub fn info_for_span(&self, span_start: u32) -> (r: Option<(String, JsDocInfo)>)
        requires
            match last_attached(self.comment_list(), span_start) {
                Some(k) => content_ok(self.source_text(), self.comment_list()[k]),
                None => true,
            },
        ensures
            match last_attached(self.comment_list(), span_start) {
                Some(k) => {
                    let text = content_of(self.source_text(), self.comment_list()[k]);
                    match r {
                        Some((doc, info)) => {
                            &&& doc@ == jsdoc_text(text)
                            &&& strings_view(info.throws@) == jsdoc_info(text).0
                            &&& info.nothrow == jsdoc_info(text).1
                        },
                        None => false,
                    }
                },
                None => r is None,
            },
    {
        let mut n = self.comments.len();
        assert(self.comments@.take(n as int) =~= self.comments@);
        while n > 0 && !(self.comments[n - 1].attached_to == span_start
            && self.comments[n - 1].jsdoc)
            invariant
                n <= self.comments@.len(),
                last_attached(self.comments@, span_start) == last_attached(
                    self.comments@.take(n as int),
                    span_start,
                ),
            decreases n,
        {
            assert(self.comments@.take(n as int).drop_last() =~= self.comments@.take(n - 1));
            n = n - 1;
        }
        if n == 0 {
            return None;
        }
        let c = self.comments[n - 1];
        assert(self.comments@.take(n as int).last() == c);
        let start = c.content_start as usize;
        let end = c.content_end as usize;
        let (_, rest) = self.source.split_at(start);
        let (body, _) = rest.split_at(end - start);
        proof {
            vstd::utf8::encode_utf8_decode_utf8(body@);
            assert(body.spec_bytes() =~= self.source.spec_bytes().subrange(
                start as int,
                end as int,
            ));
        }
        Some(clean_jsdoc_with_info(body))
    }

    /// The cleaned doc text of the JSDoc comment attached to the node
    /// starting at `span_start`.
    pub fn for_span(&self, span_start: u32) -> (r: Option<String>)
        requires
            match last_attached(self.comment_list(), span_start) {
                Some(k) => content_ok(self.source_text(), self.comment_list()[k]),
                None => true,
            },
        ensures
            match last_attached(self.comment_list(), span_start) {
                Some(k) => r is Some && r->0@ == jsdoc_text(
                    content_of(self.source_text(), self.comment_list()[k]),
                ),
                None => r is None,
            },
    {
        match self.info_for_span(span_start) {
            Some((doc, _)) => Some(doc),
            None => None,
        }
    }
}

// ---------------------------------------------------------------------
// Laws
// ---------------------------------------------------------------------

/// Every name is a non-empty, non-primitive type name.
pub open spec fn error_type_names(s: Seq<Seq<char>>) -> bool {
    forall|i: int| 0 <= i < s.len() ==> #[trigger] s[i].len() > 0 && !is_primitive_name(s[i])
}

proof fn lemma_thrown_names(arms: Seq<Seq<char>>)
    ensures
        error_type_names(thrown_names(arms)),
    decreases arms.len(),
{
    if arms.len() > 0 {
        lemma_thrown_names(arms.drop_last());
    }
}

proof fn lemma_dedup_append(xs: Seq<Seq<char>>, ys: Seq<Seq<char>>)
    requires
        xs.no_duplicates(),
        error_type_names(xs),
        error_type_names(ys),
    ensures
        dedup_append(xs, ys).no_duplicates(),
        error_type_names(dedup_append(xs, ys)),
    decreases ys.len(),
{
    if ys.len() > 0 {
        lemma_dedup_append(xs, ys.drop_last());
        let a = dedup_append(xs, ys.drop_last());
        assert(ys.last() == ys[ys.len() - 1]);
        if !a.contains(ys.last()) {
            assert forall|i: int, j: int|
                0 <= i < a.push(ys.last()).len() && 0 <= j < a.push(ys.last()).len() && i != j
                implies a.push(ys.last())[i] != a.push(ys.last())[j] by {
                if i < a.len() && j < a.len() {
                } else if i < a.len() {
                    assert(a.contains(a[i]));
                } else {
                    assert(a.contains(a[j]));
                }
            }
        }
    }
}

/// The thrown names collected so far are distinct error type names.
pub open spec fn parts_ok(p: DocParts) -> bool {
    p.throws.no_duplicates() && error_type_names(p.throws)
}

proof fn lemma_read_lines(ls: Seq<Seq<char>>)
    ensures
        parts_ok(read_lines(ls)),
        parts_ok(doc_parts(ls)),
    decreases ls.len(),
{
    if ls.len() == 0 {
        assert(empty_parts().throws =~= Seq::<Seq<char>>::empty());
    } else {
        lemma_read_lines(ls.drop_last());
        let p = read_lines(ls.drop_last());
        let line = ls.last();
        let q = match p.example {
            Some(code) => if line.len() > 0 && line[0] == '@' {
                close_example(p)
            } else {
                p
            },
            None => p,
        };
        if starts_with(line, "@throws "@) {
            let pt = parse_throws_spec(line.skip("@throws "@.len() as int));
            let t = trim(line.skip("@throws "@.len() as int));
            if t.len() > 0 && t[0] == '{' && first_index_of(t.drop_first(), '}') is Some {
                let stripped = t.drop_first();
                let end = first_index_of(stripped, '}')->0;
                let inner0 = trim(stripped.take(end));
                let inner = if starts_with(inner0, "@link "@) {
                    trim(inner0.skip("@link "@.len() as int))
                } else {
                    inner0
                };
                lemma_thrown_names(split_char(inner, '|'));
            }
            lemma_dedup_append(q.throws, pt.types);
        }
    }
}

/// The `@throws` types collected from a comment are distinct, in order
/// of first appearance, and none is empty, a primitive type name or
/// `never`.
pub proof fn law_jsdoc_throws_distinct(raw: Seq<char>)
    ensures
        jsdoc_info(raw).0.no_duplicates(),
        error_type_names(jsdoc_info(raw).0),
{
    lemma_read_lines(cleaned_lines(raw));
}

} // verus!
