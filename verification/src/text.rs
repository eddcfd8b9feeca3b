//! Character-level helpers shared by the other modules: decimal rendering and
//! conversions between strings and character vectors.

use vstd::prelude::*;

verus! {

/// The ASCII digit for `d` (expected to be below ten).
pub open spec fn digit_char(d: nat) -> char {
    (48 + d) as char
}

/// The decimal rendering of a natural number, without sign or leading zeros.
pub open spec fn decimal(n: nat) -> Seq<char>
    decreases n,
{
    if n < 10 {
        seq![digit_char(n)]
    } else {
        decimal(n / 10).push(digit_char(n % 10))
    }
}

/// Collects a vector of characters into a `String`.
///
/// Trusted: `Iterator::collect` over `std::slice::Iter<char>` into a `String`
/// appends the characters in order, so the string's characters are the
/// vector's characters.
#[verifier::external_body]
pub(crate) fn string_from_chars(chars: &Vec<char>) -> (s: String)
    ensures
        s@ == chars@,
{
    chars.iter().collect()
}

/// The characters of a string slice, in order.
pub fn str_chars(s: &str) -> (v: Vec<char>)
    ensures
        v@ == s@,
{
    let mut v: Vec<char> = Vec::new();
    for c in it: s.chars()
        invariant
            v@ == it.seq().take(it.index() as int),
            it.seq() == s@,
    {
        v.push(c);
    }
    v
}

/// Appends the decimal rendering of `n` to `out`.
pub fn push_decimal(n: u64, out: &mut Vec<char>)
    ensures
        final(out)@ == old(out)@ + decimal(n as nat),
    decreases n,
{
    if n >= 10 {
        push_decimal(n / 10, out);
    }
    let d: u8 = (n % 10) as u8;
    let c: char = (d + 48) as char;
    assert(c == digit_char((n % 10) as nat));
    out.push(c);
    proof {
        if n >= 10 {
            assert(decimal(n as nat) == decimal((n / 10) as nat).push(digit_char((n % 10) as nat)));
        } else {
            assert(decimal(n as nat) == seq![digit_char(n as nat)]);
        }
    }
}

/// Appends the characters of `s` to `out`.
pub fn push_str_chars(out: &mut Vec<char>, s: &str)
    ensures
        final(out)@ == old(out)@ + s@,
{
    for c in it: s.chars()
        invariant
            out@ == old(out)@ + it.seq().take(it.index() as int),
            it.seq() == s@,
    {
        out.push(c);
    }
    assert(s@.take(s@.len() as int) == s@);
}

/// Whether two character sequences are equal.
pub fn chars_eq(a: &[char], b: &[char]) -> (r: bool)
    ensures
        r == (a@ == b@),
{
    if a.len() != b.len() {
        return false;
    }
    let mut i: usize = 0;
    while i < a.len()
        invariant
            a.len() == b.len(),
            i <= a.len(),
            forall|j: int| 0 <= j < i ==> a@[j] == b@[j],
        decreases a.len() - i,
    {
        if a[i] != b[i] {
            return false;
        }
        i = i + 1;
    }
    assert(a@ =~= b@);
    true
}

/// Whether two string slices hold the same characters.
pub fn str_eq(a: &str, b: &str) -> (r: bool)
    ensures
        r == (a@ == b@),
{
    let va = str_chars(a);
    let vb = str_chars(b);
    chars_eq(va.as_slice(), vb.as_slice())
}

/// Whether `c` is an ASCII decimal digit.
pub open spec fn is_digit(c: char) -> bool {
    '0' <= c <= '9'
}

/// The value of an ASCII digit.
pub open spec fn digit_value(c: char) -> nat {
    (c as int - '0' as int) as nat
}

/// Every character of `s` is an ASCII decimal digit.
pub open spec fn all_digits(s: Seq<char>) -> bool {
    forall|i: int| 0 <= i < s.len() ==> is_digit(#[trigger] s[i])
}

/// The value of a string of decimal digits (most significant first).
pub open spec fn digits_value(s: Seq<char>) -> nat
    decreases s.len(),
{
    if s.len() == 0 {
        0
    } else {
        digits_value(s.drop_last()) * 10 + digit_value(s.last())
    }
}

/// The unsigned 32-bit integer that `s` spells: an optional `+` followed by
/// one or more decimal digits whose value fits in 32 bits.
pub open spec fn parse_u32_spec(s: Seq<char>) -> Option<u32> {
    let d = if s.len() > 0 && s[0] == '+' { s.drop_first() } else { s };
    if d.len() > 0 && all_digits(d) && digits_value(d) <= u32::MAX {
        Some(digits_value(d) as u32)
    } else {
        None
    }
}

/// Parses an unsigned 32-bit decimal integer (an optional `+` sign followed
/// by digits).
pub fn parse_u32(s: &[char]) -> (r: Option<u32>)
    ensures
        r == parse_u32_spec(s@),
{
    let start: usize = if s.len() > 0 && s[0] == '+' { 1 } else { 0 };
    let ghost d = if s@.len() > 0 && s@[0] == '+' { s@.drop_first() } else { s@ };
    assert(d == s@.subrange(start as int, s@.len() as int));
    if start >= s.len() {
        return None;
    }
    let cap: u64 = 4294967296;
    let mut acc: u64 = 0;
    let mut i: usize = start;
    while i < s.len()
        invariant
            start <= i <= s.len(),
            d == s@.subrange(start as int, s@.len() as int),
            d == (if s@.len() > 0 && s@[0] == '+' { s@.drop_first() } else { s@ }),
            cap == 4294967296,
            all_digits(s@.subrange(start as int, i as int)),
            acc == if digits_value(s@.subrange(start as int, i as int)) < cap {
                digits_value(s@.subrange(start as int, i as int))
            } else {
                cap as nat
            },
        decreases s.len() - i,
    {
        let c = s[i];
        if !('0' <= c && c <= '9') {
            assert(d[i - start] == c);
            assert(!is_digit(d[i - start]));
            assert(!all_digits(d));
            return None;
        }
        let dv: u64 = (c as u64) - ('0' as u64);
        let ghost prefix = s@.subrange(start as int, i as int);
        let ghost next = s@.subrange(start as int, i + 1);
        assert(next.drop_last() == prefix);
        assert(next.last() == c);
        assert(digits_value(next) == digits_value(prefix) * 10 + dv);
        if acc >= cap {
            assert(digits_value(next) >= cap) by (nonlinear_arith)
                requires
                    digits_value(next) == digits_value(prefix) * 10 + dv,
                    digits_value(prefix) >= cap,
            ;
        } else {
            let v = acc * 10 + dv;
            acc = if v >= cap { cap } else { v };
        }
        i = i + 1;
        assert(all_digits(s@.subrange(start as int, i as int)));
    }
    if acc < cap {
        Some(acc as u32)
    } else {
        None
    }
}

/// The first index at which `pat` occurs in `hay`.
pub open spec fn occurs_at(hay: Seq<char>, pat: Seq<char>, i: int) -> bool {
    0 <= i && i + pat.len() <= hay.len() && hay.subrange(i, i + pat.len()) == pat
}

/// The first occurrence of `pat` in `hay`, if any.
#[verifier::opaque]
pub open spec fn first_occurrence(hay: Seq<char>, pat: Seq<char>) -> Option<int> {
    if exists|i: int| occurs_at(hay, pat, i) {
        Some(choose|i: int| occurs_at(hay, pat, i) && forall|j: int| 0 <= j < i ==> !occurs_at(hay, pat, j))
    } else {
        None
    }
}

/// Whether `pat` occurs in `hay` at index `i`.
pub fn matches_at(hay: &[char], pat: &[char], i: usize) -> (b: bool)
    requires
        i <= hay.len(),
    ensures
        b == occurs_at(hay@, pat@, i as int),
{
    if pat.len() > hay.len() - i {
        return false;
    }
    let mut k: usize = 0;
    while k < pat.len()
        invariant
            i + pat.len() <= hay.len(),
            k <= pat.len(),
            forall|m: int| 0 <= m < k ==> hay@[i + m] == pat@[m],
        decreases pat.len() - k,
    {
        if hay[i + k] != pat[k] {
            assert(hay@.subrange(i as int, i + pat.len())[k as int] != pat@[k as int]);
            return false;
        }
        k = k + 1;
    }
    assert(hay@.subrange(i as int, i + pat.len()) =~= pat@);
    true
}

/// Finds the first occurrence of `pat` in `hay`.
pub fn find_chars(hay: &[char], pat: &[char]) -> (r: Option<usize>)
    ensures
        match r {
            Some(i) => first_occurrence(hay@, pat@) == Some(i as int),
            None => first_occurrence(hay@, pat@) is None,
        },
{
    let mut i: usize = 0;
    while i < hay.len()
        invariant
            i <= hay.len(),
            forall|j: int| 0 <= j < i ==> !occurs_at(hay@, pat@, j),
        decreases hay.len() - i,
    {
        if matches_at(hay, pat, i) {
            proof { lemma_first_occurrence(hay@, pat@, i as int); }
            return Some(i);
        }
        i = i + 1;
    }
    if matches_at(hay, pat, i) {
        proof { lemma_first_occurrence(hay@, pat@, i as int); }
        return Some(i);
    }
    assert forall|j: int| !occurs_at(hay@, pat@, j) by {
        if 0 <= j && j + pat@.len() <= hay@.len() {
            assert(j <= i);
        }
    }
    proof { reveal(first_occurrence); }
    None
}

/// The first occurrence, when there is one, is an occurrence.
pub proof fn lemma_first_occurrence_occurs(hay: Seq<char>, pat: Seq<char>)
    requires
        first_occurrence(hay, pat) is Some,
    ensures
        occurs_at(hay, pat, first_occurrence(hay, pat)->0),
{
    reveal(first_occurrence);
    let i = choose|i: int| occurs_at(hay, pat, i);
    lemma_least_occurrence(hay, pat, i);
}

proof fn lemma_least_occurrence(hay: Seq<char>, pat: Seq<char>, i: int)
    requires
        occurs_at(hay, pat, i),
    ensures
        exists|w: int| occurs_at(hay, pat, w) && forall|j: int| 0 <= j < w ==> !occurs_at(hay, pat, j),
    decreases i,
{
    if exists|j: int| 0 <= j < i && occurs_at(hay, pat, j) {
        let j = choose|j: int| 0 <= j < i && occurs_at(hay, pat, j);
        lemma_least_occurrence(hay, pat, j);
    }
}

proof fn lemma_first_occurrence(hay: Seq<char>, pat: Seq<char>, i: int)
    requires
        occurs_at(hay, pat, i),
        forall|j: int| 0 <= j < i ==> !occurs_at(hay, pat, j),
    ensures
        first_occurrence(hay, pat) == Some(i),
{
    reveal(first_occurrence);
    let w = choose|j: int| occurs_at(hay, pat, j) && forall|m: int| 0 <= m < j ==> !occurs_at(hay, pat, m);
    assert(occurs_at(hay, pat, i) && forall|m: int| 0 <= m < i ==> !occurs_at(hay, pat, m));
    assert(w == i) by {
        if w < i {
        } else if w > i {
            assert(!occurs_at(hay, pat, i));
        }
    }
}

/// The index of the first `c` in `s`, if any.
pub open spec fn char_index(s: Seq<char>, c: char) -> Option<nat>
    decreases s.len(),
{
    if s.len() == 0 {
        None
    } else if s[0] == c {
        Some(0)
    } else {
        match char_index(s.drop_first(), c) {
            Some(i) => Some(i + 1),
            None => None,
        }
    }
}

proof fn lemma_char_index(s: Seq<char>, c: char, i: int)
    requires
        0 <= i <= s.len(),
        forall|j: int| 0 <= j < i ==> s[j] != c,
    ensures
        i < s.len() && s[i] == c ==> char_index(s, c) == Some(i as nat),
        i == s.len() ==> char_index(s, c) is None,
    decreases i,
{
    if i > 0 {
        lemma_char_index(s.drop_first(), c, i - 1);
    }
}

/// Finds the first occurrence of `c` in `s`.
pub fn find_char(s: &[char], c: char) -> (r: Option<usize>)
    ensures
        match r {
            Some(i) => char_index(s@, c) == Some(i as nat) && i < s.len(),
            None => char_index(s@, c) is None,
        },
{
    let mut i: usize = 0;
    while i < s.len()
        invariant
            i <= s.len(),
            forall|j: int| 0 <= j < i ==> s@[j] != c,
        decreases s.len() - i,
    {
        if s[i] == c {
            proof { lemma_char_index(s@, c, i as int); }
            return Some(i);
        }
        i = i + 1;
    }
    proof { lemma_char_index(s@, c, i as int); }
    None
}

/// The characters `s[from..to]` as a new vector.
pub fn slice_chars(s: &[char], from: usize, to: usize) -> (v: Vec<char>)
    requires
        from <= to <= s.len(),
    ensures
        v@ == s@.subrange(from as int, to as int),
{
    let mut v: Vec<char> = Vec::new();
    let mut i = from;
    while i < to
        invariant
            from <= i <= to <= s.len(),
            v@ == s@.subrange(from as int, i as int),
        decreases to - i,
    {
        v.push(s[i]);
        i = i + 1;
    }
    v
}

/// Concatenates two string slices into a new `String`.
pub fn concat2(a: &str, b: &str) -> (s: String)
    ensures
        s@ == a@ + b@,
{
    let mut v: Vec<char> = Vec::new();
    push_str_chars(&mut v, a);
    push_str_chars(&mut v, b);
    string_from_chars(&v)
}

/// Concatenates three string slices into a new `String`.
pub fn concat3(a: &str, b: &str, c: &str) -> (s: String)
    ensures
        s@ == a@ + b@ + c@,
{
    let mut v: Vec<char> = Vec::new();
    push_str_chars(&mut v, a);
    push_str_chars(&mut v, b);
    push_str_chars(&mut v, c);
    string_from_chars(&v)
}

/// Concatenates four string slices into a new `String`.
pub fn concat4(a: &str, b: &str, c: &str, d: &str) -> (s: String)
    ensures
        s@ == a@ + b@ + c@ + d@,
{
    let mut v: Vec<char> = Vec::new();
    push_str_chars(&mut v, a);
    push_str_chars(&mut v, b);
    push_str_chars(&mut v, c);
    push_str_chars(&mut v, d);
    string_from_chars(&v)
}

/// `lo..hi` is what remains of `s` once the characters satisfying `p` are
/// stripped from both ends.
pub open spec fn trim_bounds(s: Seq<char>, p: spec_fn(char) -> bool, lo: int, hi: int) -> bool {
    &&& 0 <= lo <= hi <= s.len()
    &&& forall|i: int| 0 <= i < lo ==> p(#[trigger] s[i])
    &&& forall|i: int| hi <= i < s.len() ==> p(#[trigger] s[i])
    &&& lo < hi ==> !p(s[lo]) && !p(s[hi - 1])
    &&& lo == hi ==> hi == s.len()
}

/// `s` with the characters satisfying `p` stripped from both ends.
pub open spec fn trim_by(s: Seq<char>, p: spec_fn(char) -> bool) -> Seq<char> {
    let (lo, hi) = choose|lo: int, hi: int| trim_bounds(s, p, lo, hi);
    s.subrange(lo, hi)
}

/// Bounds found by scanning from both ends give the trimmed text.
pub proof fn lemma_trim_by(s: Seq<char>, p: spec_fn(char) -> bool, lo: int, hi: int)
    requires
        trim_bounds(s, p, lo, hi),
    ensures
        trim_by(s, p) == s.subrange(lo, hi),
{
    assert(exists|a: int, b: int| trim_bounds(s, p, a, b));
    let (a, b) = choose|a: int, b: int| trim_bounds(s, p, a, b);
    assert(trim_bounds(s, p, a, b));
    if lo < hi {
        if a < lo {
            if a == b {
                assert(b == s.len());
                assert(p(s[lo]));
            }
        }
        if lo < a {
            assert(p(s[lo]));
        }
        assert(a == lo);
        if b < hi {
            assert(p(s[hi - 1]));
        }
        if hi < b {
            assert(p(s[b - 1]));
        }
        assert(b == hi);
    } else {
        assert(lo == s.len());
        if a < b {
            assert(p(s[a]));
        }
        assert(a == b);
        assert(b == s.len());
    }
}

/// The pieces of `s` between occurrences of `sep` (always at least one), as
/// `str::split` yields them.
pub open spec fn pieces(s: Seq<char>, sep: char) -> Seq<Seq<char>>
    decreases s.len(),
{
    if s.len() == 0 {
        seq![Seq::empty()]
    } else {
        let rest = pieces(s.drop_last(), sep);
        if s.last() == sep {
            rest.push(Seq::empty())
        } else {
            rest.update(rest.len() - 1, rest.last().push(s.last()))
        }
    }
}

/// There is always at least one piece.
pub proof fn lemma_pieces_nonempty(s: Seq<char>, sep: char)
    ensures
        pieces(s, sep).len() >= 1,
    decreases s.len(),
{
    if s.len() > 0 {
        lemma_pieces_nonempty(s.drop_last(), sep);
    }
}

/// Computes `pieces(s, sep)` as vectors.
pub fn split_pieces(s: &[char], sep: char) -> (out: Vec<Vec<char>>)
    ensures
        out@.map_values(|v: Vec<char>| v@) == pieces(s@, sep),
{
    let mut out: Vec<Vec<char>> = Vec::new();
    let mut cur: Vec<char> = Vec::new();
    let mut i: usize = 0;
    while i < s.len()
        invariant
            i <= s.len(),
            out@.map_values(|v: Vec<char>| v@).push(cur@) == pieces(s@.take(i as int), sep),
        decreases s.len() - i,
    {
        let ghost prev = s@.take(i as int);
        assert(s@.take(i + 1).drop_last() == prev);
        proof { lemma_pieces_nonempty(prev, sep); }
        if s[i] == sep {
            let done = cur;
            out.push(done);
            cur = Vec::new();
            assert(out@.map_values(|v: Vec<char>| v@) =~= pieces(prev, sep));
        } else {
            cur.push(s[i]);
            assert(out@.map_values(|v: Vec<char>| v@).push(cur@) =~= pieces(prev, sep).update(
                pieces(prev, sep).len() - 1,
                pieces(prev, sep).last().push(s@[i as int]),
            ));
        }
        i = i + 1;
    }
    assert(s@.take(s.len() as int) == s@);
    out.push(cur);
    assert(out@.map_values(|v: Vec<char>| v@) =~= pieces(s@, sep));
    out
}

} // verus!
