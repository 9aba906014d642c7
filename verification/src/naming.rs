//! JS name to Rust name conversion.

use convert_case::{Case, Casing};
use vstd::prelude::*;

use crate::text::{
    lemma_decimal_injective,
    chars_of, decimal, last_index_of, push_decimal, push_str, replace_all, replace_char,
    rfind_char, string_of, sub_chars,
};
use vstd::string::*;
use vstd::utf8::*;

verus! {

/// What `convert_case` renders for a string converted to `Case::Snake`.
pub uninterp spec fn snake_case_of(s: Seq<char>) -> Seq<char>;

/// What `convert_case` renders for a string converted to `Case::Pascal`.
pub uninterp spec fn pascal_case_of(s: Seq<char>) -> Seq<char>;

/// Calls `convert_case`'s `Casing::to_case` with `Case::Snake`; the
/// contract names its result, which depends on the input text alone.
#[verifier::external_body]
fn convert_snake(name: &str) -> (r: String)
    ensures
        r@ == snake_case_of(name@),
{
    name.to_case(Case::Snake)
}

/// Calls `convert_case`'s `Casing::to_case` with `Case::Pascal`; the
/// contract names its result, which depends on the input text alone.
#[verifier::external_body]
fn convert_pascal(name: &str) -> (r: String)
    ensures
        r@ == pascal_case_of(name@),
{
    name.to_case(Case::Pascal)
}


/// ASCII letter byte.
pub open spec fn is_alpha_byte(b: u8) -> bool {
    (65 <= b && b <= 90) || (97 <= b && b <= 122)
}

/// ASCII digit byte.
pub open spec fn is_digit_byte(b: u8) -> bool {
    48 <= b && b <= 57
}

/// The first index at or after `p` that does not hold a digit.
pub open spec fn digit_run_end(b: Seq<u8>, p: int) -> int
    decreases b.len() - p,
{
    if 0 <= p < b.len() && is_digit_byte(b[p]) {
        digit_run_end(b, p + 1)
    } else {
        p
    }
}

/// The underscore at `k` joins a letter to a following run of digits
/// that ends a word (at an underscore or at the end): it is dropped.
pub open spec fn elided(b: Seq<u8>, k: int) -> bool {
    &&& 1 <= k < b.len()
    &&& b[k] == 95u8
    &&& is_alpha_byte(b[k - 1])
    &&& digit_run_end(b, k + 1) > k + 1
    &&& (digit_run_end(b, k + 1) == b.len() || b[digit_run_end(b, k + 1)] == 95u8)
}

/// The bytes `b[..n]` without the elided underscores, each byte read as a char.
pub open spec fn merged_prefix(b: Seq<u8>, n: int) -> Seq<char>
    decreases n,
{
    if n <= 0 {
        seq![]
    } else if elided(b, n - 1) {
        merged_prefix(b, n - 1)
    } else {
        merged_prefix(b, n - 1).push(b[n - 1] as char)
    }
}

/// `to_snake_case`: the `convert_case` snake form, with every digit run
/// that trails a letter glued back to that letter.
pub open spec fn snake_spec(name: Seq<char>) -> Seq<char> {
    let b = encode_utf8(snake_case_of(name));
    merged_prefix(b, b.len() as int)
}

proof fn lemma_digit_run_end_bounds(b: Seq<u8>, p: int)
    requires
        0 <= p <= b.len(),
    ensures
        p <= digit_run_end(b, p) <= b.len(),
        forall|m: int| p <= m < digit_run_end(b, p) ==> is_digit_byte(#[trigger] b[m]),
        digit_run_end(b, p) < b.len() ==> !is_digit_byte(b[digit_run_end(b, p)]),
    decreases b.len() - p,
{
    if p < b.len() && is_digit_byte(b[p]) {
        lemma_digit_run_end_bounds(b, p + 1);
    }
}

/// Convert a JS identifier to Rust `snake_case`.
///
/// Splits as `convert_case`'s `Case::Snake` does, except that digits
/// trailing a letter run stay attached to it: `Float32Array` becomes
/// `float32_array`, `BigInt64Array` becomes `big_int64_array`. Rust
/// keywords are not escaped.
pub fn to_snake_case(name: &str) -> (r: String)
    ensures
        r@ == snake_spec(name@),
{
    let standard = convert_snake(name);
    let bytes = standard.as_str().as_bytes();
    let ghost b = bytes@;
    assert(b == encode_utf8(snake_case_of(name@)));
    let mut out: Vec<char> = Vec::new();
    let mut i: usize = 0;
    while i < bytes.len()
        invariant
            b == bytes@,
            i <= bytes@.len(),
            out@ == merged_prefix(b, i as int),
            !elided(b, i as int),
        decreases bytes@.len() - i,
    {
        let c = bytes[i];
        if (65u8 <= c && c <= 90u8) || (97u8 <= c && c <= 122u8) {
            if i + 1 < bytes.len() && bytes[i + 1] == 95u8 {
                let mut j = i + 2;
                while j < bytes.len() && 48u8 <= bytes[j] && bytes[j] <= 57u8
                    invariant
                        b == bytes@,
                        i + 2 <= j <= bytes@.len(),
                        digit_run_end(b, i + 2) == digit_run_end(b, j as int),
                    decreases bytes@.len() - j,
                {
                    j = j + 1;
                }
                proof {
                    lemma_digit_run_end_bounds(b, i + 2);
                }
                let merged_ok = j > i + 2 && (j == bytes.len() || bytes[j] == 95u8);
                if merged_ok {
                    assert(!elided(b, i as int));
                    out.push(c as char);
                    assert(out@ == merged_prefix(b, i + 1));
                    assert(elided(b, i + 1));
                    assert(out@ == merged_prefix(b, i + 2));
                    let mut m = i + 2;
                    while m < j
                        invariant
                            b == bytes@,
                            i + 2 <= m <= j <= bytes@.len(),
                            j == digit_run_end(b, i + 2),
                            forall|k: int| i + 2 <= k < j ==> is_digit_byte(#[trigger] b[k]),
                            out@ == merged_prefix(b, m as int),
                        decreases j - m,
                    {
                        assert(!elided(b, m as int));
                        out.push(bytes[m] as char);
                        m = m + 1;
                    }
                    assert(!elided(b, j as int));
                    i = j;
                    continue;
                }
                assert(!elided(b, i + 1));
            }
        }
        assert(!elided(b, i as int));
        out.push(c as char);
        i = i + 1;
    }
    string_of(&out)
}

/// Convert a JS identifier to a Rust PascalCase name.
pub fn to_pascal_case(name: &str) -> (r: String)
    ensures
        r@ == pascal_case_of(name@),
{
    convert_pascal(name)
}

/// The name `to_enum_variant` gives a string literal.
pub open spec fn enum_variant_spec(s: Seq<char>) -> Seq<char> {
    if pascal_case_of(s).len() == 0 {
        "Empty"@
    } else {
        pascal_case_of(s)
    }
}

/// Convert a string literal to a PascalCase enum variant name
/// (`"v8"` to `V8`, `"text"` to `Text`); an empty result becomes `Empty`.
pub fn to_enum_variant(s: &str) -> (r: String)
    ensures
        r@ == enum_variant_spec(s@),
{
    let pascal = convert_pascal(s);
    if pascal.as_str().unicode_len() == 0 {
        "Empty".to_string()
    } else {
        pascal
    }
}


/// The Rust module identifier `module_specifier_to_ident` derives.
pub open spec fn module_ident_spec(specifier: Seq<char>) -> Seq<char> {
    let short = match last_index_of(specifier, ':') {
        Some(k) => specifier.skip(k + 1),
        None => specifier,
    };
    snake_spec(replace_char(replace_char(short, '/', "_"@), '*', "star"@))
}

/// Convert a TS module specifier (`"cloudflare:email"`, `"node:url"`,
/// `"some/sub/path"`) into the snake_case identifier of the Rust module
/// that wraps its declarations: everything up to the last `:` is dropped,
/// `/` becomes `_`, `*` becomes `star`, and the result is snake-cased.
pub fn module_specifier_to_ident(specifier: &str) -> (r: String)
    ensures
        r@ == module_ident_spec(specifier@),
{
    let chars = chars_of(specifier);
    let short = match rfind_char(&chars, ':') {
        Some(k) => sub_chars(&chars, k + 1, chars.len()),
        None => chars,
    };
    let slashed = replace_all(&short, '/', "_");
    let starred = replace_all(&slashed, '*', "star");
    let joined = string_of(&starred);
    to_snake_case(joined.as_str())
}

/// `base` with the suffix `_<k>`.
pub open spec fn suffixed(base: Seq<char>, k: nat) -> Seq<char> {
    base + "_"@ + decimal(k)
}

/// `r` is what `dedup_names` makes of `n` when the names `taken` are
/// already in use: `n` itself when it is free, else `n_<k>` for the
/// smallest `k >= 2` that is free.
pub open spec fn dedup_step(taken: Seq<Seq<char>>, n: Seq<char>, r: Seq<char>) -> bool {
    if !taken.contains(n) {
        r == n
    } else {
        exists|k: nat|
            k >= 2 && r == suffixed(n, k) && !taken.contains(r) && forall|j: nat|
                2 <= j < k ==> taken.contains(#[trigger] suffixed(n, j))
    }
}

proof fn lemma_suffixed_distinct(base: Seq<char>, a: nat, b: nat)
    requires
        suffixed(base, a) == suffixed(base, b),
    ensures
        a == b,
{
    let pre = base + "_"@;
    assert(suffixed(base, a) == pre + decimal(a));
    assert(decimal(a) =~= suffixed(base, a).skip(pre.len() as int));
    assert(decimal(b) =~= suffixed(base, b).skip(pre.len() as int));
    lemma_decimal_injective(a, b);
}

/// Whether `x` is among `v`.
fn contains_str(v: &Vec<String>, x: &String) -> (r: bool)
    ensures
        r == v@.map_values(|n: String| n@).contains(x@),
{
    let ghost w = v@.map_values(|n: String| n@);
    let mut i: usize = 0;
    while i < v.len()
        invariant
            i <= v.len(),
            w == v@.map_values(|n: String| n@),
            forall|j: int| 0 <= j < i ==> #[trigger] w[j] != x@,
        decreases v.len() - i,
    {
        if crate::text::str_eq(v[i].as_str(), x.as_str()) {
            assert(w[i as int] == x@);
            return true;
        }
        i = i + 1;
    }
    false
}

/// The name `n` takes given the names already in use (see `dedup_step`).
fn dedup_one(taken: &Vec<String>, n: &String) -> (r: String)
    requires
        taken@.len() + 2 < usize::MAX,
    ensures
        dedup_step(taken@.map_values(|s: String| s@), n@, r@),
{
    let ghost tv = taken@.map_values(|s: String| s@);
    if !contains_str(taken, n) {
        return n.clone();
    }
    let mut k: usize = 2;
    loop
        invariant
            2 <= k,
            tv == taken@.map_values(|s: String| s@),
            taken@.len() + 2 < usize::MAX,
            tv.contains(n@),
            k - 2 <= tv.len(),
            forall|j: nat| 2 <= j < k ==> tv.contains(#[trigger] suffixed(n@, j)),
        decreases tv.len() + 2 - k,
    {
        let mut buf = chars_of(n.as_str());
        buf.push('_');
        push_decimal(&mut buf, k);
        let cand = string_of(&buf);
        proof {
            reveal_strlit("_");
            assert(cand@ =~= suffixed(n@, k as nat));
        }
        if !contains_str(taken, &cand) {
            return cand;
        }
        proof {
            let w = Seq::new((k - 1) as nat, |j: int| suffixed(n@, (j + 2) as nat));
            assert forall|a: int, b: int| 0 <= a < w.len() && 0 <= b < w.len() && a != b implies w[a]
                != w[b] by {
                if w[a] == w[b] {
                    lemma_suffixed_distinct(n@, (a + 2) as nat, (b + 2) as nat);
                }
            }
            assert forall|j: int| 0 <= j < w.len() implies tv.contains(#[trigger] w[j]) by {
                if j + 2 < k {
                    assert(tv.contains(suffixed(n@, (j + 2) as nat)));
                }
            }
            crate::text::lemma_distinct_bound(w, tv);
            tv.lemma_cardinality_of_set();
        }
        k = k + 1;
    }
}

/// Deduplicate names in place: each name keeps its text when no earlier
/// name (as already renamed) has it, and otherwise takes the first of
/// `_2`, `_3`, ... appended that is still free. The names come out
/// pairwise distinct, and a list without repeats comes out unchanged.
pub fn dedup_names(names: &mut [String])
    requires
        old(names)@.len() + 2 < usize::MAX,
    ensures
        final(names)@.len() == old(names)@.len(),
        forall|i: int|
            0 <= i < old(names)@.len() ==> dedup_step(
                final(names)@.map_values(|n: String| n@).take(i),
                old(names)@[i]@,
                #[trigger] final(names)@[i]@,
            ),
        forall|i: int, j: int|
            0 <= i < j < final(names)@.len() ==> #[trigger] final(names)@[i]@
                != #[trigger] final(names)@[j]@,
        old(names)@.map_values(|n: String| n@).no_duplicates() ==> forall|i: int|
            0 <= i < old(names)@.len() ==> (#[trigger] final(names)@[i])@ == old(names)@[i]@,
{
    let ghost orig = names@;
    let ghost ov = names@.map_values(|n: String| n@);
    let mut done: Vec<String> = Vec::new();
    let mut i: usize = 0;
    while i < names.len()
        invariant
            i <= names@.len(),
            names@.len() == orig.len(),
            ov == orig.map_values(|n: String| n@),
            orig.len() + 2 < usize::MAX,
            done@.len() == i,
            done@.map_values(|n: String| n@) == names@.map_values(|n: String| n@).take(i as int),
            forall|k: int| i <= k < names@.len() ==> #[trigger] names@[k] == orig[k],
            forall|k: int|
                0 <= k < i ==> dedup_step(
                    names@.map_values(|n: String| n@).take(k),
                    orig[k]@,
                    #[trigger] names@[k]@,
                ),
            forall|a: int, b: int| 0 <= a < b < i ==> #[trigger] names@[a]@ != #[trigger] names@[b]@,
            ov.no_duplicates() ==> forall|k: int| 0 <= k < i ==> (#[trigger] names@[k])@ == orig[k]@,
        decreases names@.len() - i,
    {
        let ghost before = names@;
        let ghost taken = done@.map_values(|n: String| n@);
        let r = dedup_one(&done, &names[i]);
        let r2 = r.clone();
        names[i] = r;
        done.push(r2);
        proof {
            let nv = names@.map_values(|n: String| n@);
            let bv = before.map_values(|n: String| n@);
            assert forall|k: int| 0 <= k <= i implies nv.take(k) == bv.take(k) by {
                assert(nv.take(k) =~= bv.take(k));
            }
            assert(taken == nv.take(i as int));
            assert(done@.map_values(|n: String| n@) =~= nv.take(i + 1));
            // The new name is none of the earlier ones.
            assert(!taken.contains(names@[i as int]@));
            assert forall|a: int, b: int| 0 <= a < b < i + 1 implies #[trigger] names@[a]@
                != #[trigger] names@[b]@ by {
                if b == i {
                    assert(taken[a] == names@[a]@);
                } else {
                    assert(names@[a] == before[a] && names@[b] == before[b]);
                }
            }
            assert forall|k: int| 0 <= k < i + 1 implies dedup_step(
                nv.take(k),
                orig[k]@,
                #[trigger] names@[k]@,
            ) by {
                if k < i {
                    assert(names@[k] == before[k]);
                    assert(nv.take(k) == bv.take(k));
                }
            }
            if ov.no_duplicates() {
                assert(taken =~= ov.take(i as int)) by {
                    assert forall|k: int| 0 <= k < i implies taken[k] == ov[k] by {
                        assert(names@[k] == before[k]);
                    }
                }
                assert(!taken.contains(ov[i as int])) by {
                    if taken.contains(ov[i as int]) {
                        let k = choose|k: int| 0 <= k < taken.len() && taken[k] == ov[i as int];
                        assert(ov[k] == ov[i as int]);
                    }
                }
                assert(names@[i as int]@ == orig[i as int]@);
            }
        }
        i = i + 1;
    }
}

} // verus!
