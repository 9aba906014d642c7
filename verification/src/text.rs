//! Character-level text utilities used by the naming and JSDoc modules.
//!
//! Strings are modelled by their character sequence (`Seq<char>`); the
//! helpers here work on `Vec<char>` buffers and are specified over that
//! model.

use vstd::prelude::*;

verus! {

/// Unicode `White_Space` property, the set `char::is_whitespace` tests.
pub open spec fn is_ws(c: char) -> bool {
    let u = c as u32;
    (9 <= u && u <= 13) || u == 32 || u == 0x85 || u == 0xA0 || u == 0x1680
        || (0x2000 <= u && u <= 0x200A) || u == 0x2028 || u == 0x2029 || u == 0x202F
        || u == 0x205F || u == 0x3000
}

/// Executable whitespace test.
pub fn is_whitespace(c: char) -> (r: bool)
    ensures
        r == is_ws(c),
{
    let u = c as u32;
    (9 <= u && u <= 13) || u == 32 || u == 0x85 || u == 0xA0 || u == 0x1680
        || (0x2000 <= u && u <= 0x200A) || u == 0x2028 || u == 0x2029 || u == 0x202F
        || u == 0x205F || u == 0x3000
}

/// Drop leading whitespace.
pub open spec fn trim_start(s: Seq<char>) -> Seq<char>
    decreases s.len(),
{
    if s.len() > 0 && is_ws(s[0]) {
        trim_start(s.drop_first())
    } else {
        s
    }
}

/// Drop trailing whitespace.
pub open spec fn trim_end(s: Seq<char>) -> Seq<char>
    decreases s.len(),
{
    if s.len() > 0 && is_ws(s.last()) {
        trim_end(s.drop_last())
    } else {
        s
    }
}

/// `str::trim`: drop leading and trailing whitespace.
pub open spec fn trim(s: Seq<char>) -> Seq<char> {
    trim_end(trim_start(s))
}

/// The bounds of the trimmed part of `s[lo..hi]`.
pub fn trim_range(s: &Vec<char>, lo: usize, hi: usize) -> (r: (usize, usize))
    requires
        lo <= hi <= s.len(),
    ensures
        lo <= r.0 <= r.1 <= hi,
        s@.subrange(r.0 as int, r.1 as int) == trim(s@.subrange(lo as int, hi as int)),
{
    let mut i = lo;
    while i < hi && is_whitespace(s[i])
        invariant
            lo <= i <= hi <= s.len(),
            trim_start(s@.subrange(lo as int, hi as int)) == trim_start(
                s@.subrange(i as int, hi as int),
            ),
        decreases hi - i,
    {
        assert(s@.subrange(i as int, hi as int).drop_first() =~= s@.subrange(
            i + 1,
            hi as int,
        ));
        i = i + 1;
    }
    assert(trim_start(s@.subrange(i as int, hi as int)) == s@.subrange(i as int, hi as int));
    let mut j = hi;
    while j > i && is_whitespace(s[j - 1])
        invariant
            lo <= i <= j <= hi <= s.len(),
            trim(s@.subrange(lo as int, hi as int)) == trim_end(s@.subrange(i as int, j as int)),
        decreases j - i,
    {
        assert(s@.subrange(i as int, j as int).drop_last() =~= s@.subrange(
            i as int,
            j - 1,
        ));
        j = j - 1;
    }
    (i, j)
}

/// Copy `s[lo..hi]` into a fresh buffer.
pub fn sub_chars(s: &Vec<char>, lo: usize, hi: usize) -> (r: Vec<char>)
    requires
        lo <= hi <= s.len(),
    ensures
        r@ == s@.subrange(lo as int, hi as int),
{
    let mut r: Vec<char> = Vec::new();
    let mut i = lo;
    while i < hi
        invariant
            lo <= i <= hi <= s.len(),
            r@ == s@.subrange(lo as int, i as int),
        decreases hi - i,
    {
        r.push(s[i]);
        assert(r@ =~= s@.subrange(lo as int, i + 1));
        i = i + 1;
    }
    r
}

/// String slice equality, character by character.
pub(crate) fn str_eq(a: &str, b: &str) -> (r: bool)
    ensures
        r == (a@ == b@),
{
    let ca = chars_of(a);
    let cb = chars_of(b);
    if ca.len() != cb.len() {
        return false;
    }
    let mut i: usize = 0;
    while i < ca.len()
        invariant
            ca@ == a@,
            cb@ == b@,
            ca@.len() == cb@.len(),
            i <= ca@.len(),
            forall|j: int| 0 <= j < i ==> ca@[j] == cb@[j],
        decreases ca@.len() - i,
    {
        if ca[i] != cb[i] {
            return false;
        }
        i = i + 1;
    }
    assert(a@ =~= b@);
    true
}

/// The characters of a string slice.
pub fn chars_of(s: &str) -> (r: Vec<char>)
    ensures
        r@ == s@,
{
    let mut r: Vec<char> = Vec::new();
    for c in it: s.chars()
        invariant
            r@ == it.seq().take(it.index() as int),
    {
        r.push(c);
    }
    r
}

/// A string holding exactly the given characters.
#[verifier::external_body]
pub(crate) fn string_of(v: &Vec<char>) -> (r: String)
    ensures
        r@ == v@,
{
    v.iter().collect()
}

/// Append the characters of `s` to `out`.
pub fn push_str(out: &mut Vec<char>, s: &str)
    ensures
        final(out)@ == old(out)@ + s@,
{
    let ghost start = out@;
    for c in it: s.chars()
        invariant
            out@ == start + it.seq().take(it.index() as int),
    {
        out.push(c);
    }
}

/// Append a character buffer to `out`.
pub fn push_chars(out: &mut Vec<char>, s: &Vec<char>)
    ensures
        final(out)@ == old(out)@ + s@,
{
    let ghost start = out@;
    let mut i: usize = 0;
    while i < s.len()
        invariant
            i <= s.len(),
            out@ == start + s@.take(i as int),
        decreases s.len() - i,
    {
        out.push(s[i]);
        assert(s@.take(i + 1) =~= s@.take(i as int).push(s@[i as int]));
        i = i + 1;
    }
    assert(s@.take(s@.len() as int) =~= s@);
}

/// Decimal digits of a natural number, as `usize::to_string` renders it.
pub open spec fn decimal(n: nat) -> Seq<char>
    decreases n,
{
    if n < 10 {
        seq![digit_char(n)]
    } else {
        decimal(n / 10).push(digit_char(n % 10))
    }
}

/// The ASCII digit for `d < 10`.
pub open spec fn digit_char(d: nat) -> char {
    ((48 + d) as u8) as char
}

/// Append the decimal rendering of `n` to `out`.
pub fn push_decimal(out: &mut Vec<char>, n: usize)
    ensures
        final(out)@ == old(out)@ + decimal(n as nat),
    decreases n,
{
    if n >= 10 {
        push_decimal(out, n / 10);
    }
    let d: u8 = (n % 10) as u8;
    out.push((48u8 + d) as char);
    assert(old(out)@ + decimal(n as nat) =~= final(out)@) by {
        if n >= 10 {
            assert(decimal(n as nat) == decimal((n / 10) as nat).push(digit_char((n % 10) as nat)));
        }
    };
}


/// The index of the last occurrence of `c` in `s`.
pub open spec fn last_index_of(s: Seq<char>, c: char) -> Option<int>
    decreases s.len(),
{
    if s.len() == 0 {
        None
    } else if s.last() == c {
        Some(s.len() - 1)
    } else {
        last_index_of(s.drop_last(), c)
    }
}

/// The index of the first occurrence of `c` in `s`.
pub open spec fn first_index_of(s: Seq<char>, c: char) -> Option<int>
    decreases s.len(),
{
    if s.len() == 0 {
        None
    } else if s[0] == c {
        Some(0)
    } else {
        match first_index_of(s.drop_first(), c) {
            Some(k) => Some(k + 1),
            None => None,
        }
    }
}

/// `s` with every `c` replaced by `r`.
pub open spec fn replace_char(s: Seq<char>, c: char, r: Seq<char>) -> Seq<char>
    decreases s.len(),
{
    if s.len() == 0 {
        seq![]
    } else if s.last() == c {
        replace_char(s.drop_last(), c, r) + r
    } else {
        replace_char(s.drop_last(), c, r).push(s.last())
    }
}

/// Find the last `c` in `s`.
pub fn rfind_char(s: &Vec<char>, c: char) -> (r: Option<usize>)
    ensures
        match r {
            Some(k) => k < s.len() && last_index_of(s@, c) == Some(k as int),
            None => last_index_of(s@, c) is None,
        },
{
    let mut n = s.len();
    assert(s@.take(n as int) =~= s@);
    while n > 0 && s[n - 1] != c
        invariant
            n <= s.len(),
            last_index_of(s@, c) == last_index_of(s@.take(n as int), c),
        decreases n,
    {
        assert(s@.take(n as int).drop_last() =~= s@.take(n - 1));
        n = n - 1;
    }
    if n == 0 {
        assert(s@.take(0) =~= Seq::<char>::empty());
        None
    } else {
        Some(n - 1)
    }
}

/// Find the first `c` in `s[lo..hi]`, as an absolute index.
pub fn find_char(s: &Vec<char>, lo: usize, hi: usize, c: char) -> (r: Option<usize>)
    requires
        lo <= hi <= s.len(),
    ensures
        match r {
            Some(k) => lo <= k < hi && first_index_of(s@.subrange(lo as int, hi as int), c) == Some(
                k - lo,
            ),
            None => first_index_of(s@.subrange(lo as int, hi as int), c) is None,
        },
{
    let mut i = lo;
    while i < hi && s[i] != c
        invariant
            lo <= i <= hi <= s.len(),
            first_index_of(s@.subrange(lo as int, hi as int), c) == (match first_index_of(
                s@.subrange(i as int, hi as int),
                c,
            ) {
                Some(k) => Some(k + (i - lo)),
                None => None,
            }),
        decreases hi - i,
    {
        assert(s@.subrange(i as int, hi as int).drop_first() =~= s@.subrange(i + 1, hi as int));
        i = i + 1;
    }
    if i == hi {
        None
    } else {
        Some(i)
    }
}

/// Replace every `c` in `s` by the characters of `r`.
pub fn replace_all(s: &Vec<char>, c: char, r: &str) -> (out: Vec<char>)
    ensures
        out@ == replace_char(s@, c, r@),
{
    let mut out: Vec<char> = Vec::new();
    let mut i: usize = 0;
    while i < s.len()
        invariant
            i <= s.len(),
            out@ == replace_char(s@.take(i as int), c, r@),
        decreases s.len() - i,
    {
        assert(s@.take(i + 1).drop_last() =~= s@.take(i as int));
        if s[i] == c {
            push_str(&mut out, r);
        } else {
            out.push(s[i]);
        }
        i = i + 1;
    }
    assert(s@.take(s@.len() as int) =~= s@);
    out
}


/// `s` starts with `p`.
pub open spec fn starts_with(s: Seq<char>, p: Seq<char>) -> bool {
    s.len() >= p.len() && s.take(p.len() as int) == p
}

/// The index of the first occurrence of `p` in `s` (`str::find` with a
/// string pattern).
pub open spec fn find_sub(s: Seq<char>, p: Seq<char>) -> Option<int>
    decreases s.len(),
{
    if s.len() < p.len() {
        None
    } else if s.take(p.len() as int) == p {
        Some(0)
    } else if s.len() == 0 {
        None
    } else {
        match find_sub(s.drop_first(), p) {
            Some(k) => Some(k + 1),
            None => None,
        }
    }
}

/// `str::split` with a char separator: the pieces between separators,
/// empty ones included.
pub open spec fn split_char(s: Seq<char>, c: char) -> Seq<Seq<char>>
    decreases s.len(),
{
    match first_index_of(s, c) {
        Some(k) => if 0 <= k < s.len() {
            seq![s.take(k)] + split_char(s.skip(k + 1), c)
        } else {
            seq![s]
        },
        None => seq![s],
    }
}

/// `str::lines` up to a trailing carriage return, which every caller
/// trims away: the pieces between newlines, without a final empty piece
/// after a trailing newline.
pub open spec fn lines(s: Seq<char>) -> Seq<Seq<char>>
    decreases s.len(),
{
    if s.len() == 0 {
        seq![]
    } else {
        match first_index_of(s, '\n') {
            Some(k) => if 0 <= k < s.len() {
                seq![s.take(k)] + lines(s.skip(k + 1))
            } else {
                seq![s]
            },
            None => seq![s],
        }
    }
}

pub proof fn lemma_first_index_of_bounds(s: Seq<char>, c: char)
    ensures
        match first_index_of(s, c) {
            Some(k) => 0 <= k < s.len() && s[k] == c && forall|j: int|
                0 <= j < k ==> #[trigger] s[j] != c,
            None => forall|j: int| 0 <= j < s.len() ==> #[trigger] s[j] != c,
        },
    decreases s.len(),
{
    if s.len() > 0 && s[0] != c {
        lemma_first_index_of_bounds(s.drop_first(), c);
        assert forall|j: int| 1 <= j < s.len() implies s[j] == s.drop_first()[j - 1] by {}
    }
}

pub proof fn lemma_find_sub_bounds(s: Seq<char>, p: Seq<char>)
    ensures
        match find_sub(s, p) {
            Some(k) => 0 <= k && k + p.len() <= s.len() && s.subrange(k, k + p.len()) == p
                && forall|j: int|
                0 <= j < k ==> #[trigger] s.subrange(j, j + p.len()) != p,
            None => forall|j: int|
                0 <= j && j + p.len() <= s.len() ==> #[trigger] s.subrange(j, j + p.len()) != p,
        },
    decreases s.len(),
{
    if s.len() >= p.len() && s.take(p.len() as int) != p && s.len() > 0 {
        lemma_find_sub_bounds(s.drop_first(), p);
        assert forall|j: int| 1 <= j && j + p.len() <= s.len() implies #[trigger] s.subrange(
            j,
            j + p.len(),
        ) == s.drop_first().subrange(j - 1, j - 1 + p.len()) by {
            assert(s.subrange(j, j + p.len()) =~= s.drop_first().subrange(j - 1, j - 1 + p.len()));
        }
        assert(s.subrange(0, p.len() as int) == s.take(p.len() as int));
    } else if s.len() >= p.len() && s.take(p.len() as int) == p {
        assert(s.subrange(0, p.len() as int) == s.take(p.len() as int));
    } else if s.len() >= p.len() && s.len() == 0 {
        assert(p.len() == 0);
        assert(s.take(0) =~= p);
    }
}

/// Whether `s[lo..hi]` starts with `p`.
pub fn has_prefix(s: &Vec<char>, lo: usize, hi: usize, p: &Vec<char>) -> (r: bool)
    requires
        lo <= hi <= s.len(),
    ensures
        r == starts_with(s@.subrange(lo as int, hi as int), p@),
{
    if hi - lo < p.len() {
        return false;
    }
    let mut i: usize = 0;
    while i < p.len()
        invariant
            lo <= hi <= s.len(),
            hi - lo >= p.len(),
            i <= p.len(),
            forall|k: int| 0 <= k < i ==> #[trigger] s@[lo + k] == p@[k],
        decreases p.len() - i,
    {
        if s[lo + i] != p[i] {
            assert(s@.subrange(lo as int, hi as int).take(p.len() as int)[i as int] != p@[i as int]);
            return false;
        }
        i = i + 1;
    }
    assert forall|k: int| 0 <= k < p.len() implies #[trigger] s@.subrange(lo as int, hi as int).take(
        p.len() as int,
    )[k] == p@[k] by {
        assert(s@[lo + k] == p@[k]);
    }
    assert(s@.subrange(lo as int, hi as int).take(p.len() as int) =~= p@);
    true
}

/// Whether `s[lo..hi]` equals `p`.
pub fn eq_range(s: &Vec<char>, lo: usize, hi: usize, p: &Vec<char>) -> (r: bool)
    requires
        lo <= hi <= s.len(),
    ensures
        r == (s@.subrange(lo as int, hi as int) == p@),
{
    if hi - lo != p.len() {
        assert(s@.subrange(lo as int, hi as int).len() != p@.len());
        return false;
    }
    let r = has_prefix(s, lo, hi, p);
    assert(s@.subrange(lo as int, hi as int).take(p.len() as int) =~= s@.subrange(
        lo as int,
        hi as int,
    ));
    r
}

/// Find the first occurrence of `p` in `s[lo..hi]`, as an absolute index.
pub fn find_sub_in(s: &Vec<char>, lo: usize, hi: usize, p: &Vec<char>) -> (r: Option<usize>)
    requires
        lo <= hi <= s.len(),
    ensures
        match r {
            Some(k) => lo <= k <= hi && find_sub(s@.subrange(lo as int, hi as int), p@) == Some(
                k - lo,
            ),
            None => find_sub(s@.subrange(lo as int, hi as int), p@) is None,
        },
{
    let ghost w = s@.subrange(lo as int, hi as int);
    let mut i = lo;
    loop
        invariant
            lo <= i <= hi <= s.len(),
            w == s@.subrange(lo as int, hi as int),
            find_sub(w, p@) == match find_sub(s@.subrange(i as int, hi as int), p@) {
                Some(k) => Some(k + (i - lo)),
                None => None,
            },
        decreases hi - i,
    {
        let ghost cur = s@.subrange(i as int, hi as int);
        if has_prefix(s, i, hi, p) {
            return Some(i);
        }
        if i == hi {
            return None;
        }
        assert(cur.drop_first() =~= s@.subrange(i + 1, hi as int));
        i = i + 1;
    }
}


/// The character sequences of a list of buffers.
pub open spec fn bufs_view(v: Seq<Vec<char>>) -> Seq<Seq<char>> {
    v.map_values(|b: Vec<char>| b@)
}

/// Split `s` at every `c` (`str::split` with a char pattern).
pub fn split_on(s: &Vec<char>, c: char) -> (r: Vec<Vec<char>>)
    ensures
        bufs_view(r@) == split_char(s@, c),
{
    let mut out: Vec<Vec<char>> = Vec::new();
    let mut pos: usize = 0;
    assert(s@.skip(0) =~= s@);
    loop
        invariant
            pos <= s.len(),
            split_char(s@, c) == bufs_view(out@) + split_char(s@.skip(pos as int), c),
        decreases s.len() - pos,
    {
        let ghost rest = s@.skip(pos as int);
        assert(s@.subrange(pos as int, s.len() as int) =~= rest);
        match find_char(s, pos, s.len(), c) {
            Some(k) => {
                proof {
                    lemma_first_index_of_bounds(rest, c);
                }
                let piece = sub_chars(s, pos, k);
                assert(piece@ =~= rest.take(k - pos));
                assert(rest.skip(k - pos + 1) =~= s@.skip(k + 1));
                let ghost before = out@;
                out.push(piece);
                assert(bufs_view(out@) =~= bufs_view(before).push(piece@));
                assert(split_char(rest, c) == seq![rest.take(k - pos)] + split_char(
                    rest.skip(k - pos + 1),
                    c,
                ));
                assert(bufs_view(out@) + split_char(s@.skip(k + 1), c) =~= bufs_view(before)
                    + split_char(rest, c));
                pos = k + 1;
            },
            None => {
                let piece = sub_chars(s, pos, s.len());
                let ghost before = out@;
                out.push(piece);
                assert(bufs_view(out@) =~= bufs_view(before).push(piece@));
                assert(bufs_view(out@) =~= bufs_view(before) + split_char(rest, c));
                return out;
            },
        }
    }
}

/// Split `s` into lines (`lines`).
pub fn lines_on(s: &Vec<char>) -> (r: Vec<Vec<char>>)
    ensures
        bufs_view(r@) == lines(s@),
{
    let mut out: Vec<Vec<char>> = Vec::new();
    let mut pos: usize = 0;
    assert(s@.skip(0) =~= s@);
    while pos < s.len()
        invariant
            pos <= s.len(),
            lines(s@) == bufs_view(out@) + lines(s@.skip(pos as int)),
        decreases s.len() - pos,
    {
        let ghost rest = s@.skip(pos as int);
        assert(s@.subrange(pos as int, s.len() as int) =~= rest);
        match find_char(s, pos, s.len(), '\n') {
            Some(k) => {
                proof {
                    lemma_first_index_of_bounds(rest, '\n');
                }
                let piece = sub_chars(s, pos, k);
                assert(piece@ =~= rest.take(k - pos));
                assert(rest.skip(k - pos + 1) =~= s@.skip(k + 1));
                let ghost before = out@;
                out.push(piece);
                assert(bufs_view(out@) =~= bufs_view(before).push(piece@));
                assert(bufs_view(out@) + lines(s@.skip(k + 1)) =~= bufs_view(before) + lines(
                    rest,
                ));
                pos = k + 1;
            },
            None => {
                let piece = sub_chars(s, pos, s.len());
                let ghost before = out@;
                out.push(piece);
                assert(bufs_view(out@) =~= bufs_view(before).push(piece@));
                assert(s@.skip(s.len() as int) =~= Seq::<char>::empty());
                assert(bufs_view(out@) + lines(s@.skip(s.len() as int)) =~= bufs_view(before)
                    + lines(rest));
                pos = s.len();
            },
        }
    }
    assert(s@.skip(pos as int) =~= Seq::<char>::empty());
    assert(bufs_view(out@) + lines(s@.skip(pos as int)) =~= bufs_view(out@));
    out
}

/// An ASCII decimal digit.
pub open spec fn is_digit_char(c: char) -> bool {
    '0' <= c <= '9'
}

pub proof fn lemma_decimal_digits(n: nat)
    ensures
        decimal(n).len() >= 1,
        forall|k: int| 0 <= k < decimal(n).len() ==> is_digit_char(#[trigger] decimal(n)[k]),
    decreases n,
{
    if n >= 10 {
        lemma_decimal_digits(n / 10);
        let d = (n % 10) as nat;
        assert(is_digit_char(digit_char(d))) by {
            assert(48 <= 48 + d < 58);
        }
        assert forall|k: int| 0 <= k < decimal(n).len() implies is_digit_char(
            #[trigger] decimal(n)[k],
        ) by {
            if k < decimal(n / 10).len() {
                assert(decimal(n)[k] == decimal(n / 10)[k]);
            }
        }
    } else {
        assert(is_digit_char(digit_char(n))) by {
            assert(48 <= 48 + n < 58);
        }
    }
}

proof fn lemma_digit_char_injective(a: nat, b: nat)
    requires
        a < 10,
        b < 10,
        digit_char(a) == digit_char(b),
    ensures
        a == b,
{
    assert((digit_char(a) as u32) == 48 + a);
    assert((digit_char(b) as u32) == 48 + b);
}

pub proof fn lemma_decimal_injective(a: nat, b: nat)
    requires
        decimal(a) == decimal(b),
    ensures
        a == b,
    decreases a + b,
{
    lemma_decimal_digits(a / 10);
    lemma_decimal_digits(b / 10);
    if a < 10 && b < 10 {
        assert(decimal(a)[0] == digit_char(a));
        assert(decimal(b)[0] == digit_char(b));
        lemma_digit_char_injective(a, b);
    } else if a >= 10 && b >= 10 {
        assert(decimal(a).last() == digit_char((a % 10) as nat));
        assert(decimal(b).last() == digit_char((b % 10) as nat));
        assert(decimal(a).drop_last() =~= decimal(a / 10));
        assert(decimal(b).drop_last() =~= decimal(b / 10));
        lemma_decimal_injective(a / 10, b / 10);
        lemma_digit_char_injective((a % 10) as nat, (b % 10) as nat);
    } else if a < 10 {
        assert(decimal(b).len() >= 2);
    } else {
        assert(decimal(a).len() >= 2);
    }
}

/// A repetition-free sequence drawn from `c` is no longer than the number
/// of distinct elements of `c`.
pub proof fn lemma_distinct_bound(w: Seq<Seq<char>>, c: Seq<Seq<char>>)
    requires
        w.no_duplicates(),
        forall|k: int| 0 <= k < w.len() ==> c.contains(#[trigger] w[k]),
    ensures
        w.len() <= c.to_set().len(),
{
    w.unique_seq_to_set();
    c.lemma_cardinality_of_set();
    assert(w.to_set().subset_of(c.to_set())) by {
        assert forall|x: Seq<char>| w.to_set().contains(x) implies c.to_set().contains(x) by {
            let k = choose|k: int| 0 <= k < w.len() && w[k] == x;
        }
    }
    vstd::set_lib::lemma_len_subset(w.to_set(), c.to_set());
}

} // verus!
