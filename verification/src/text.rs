//! Character-level helpers for the text formats the library reads.

use vstd::prelude::*;
use vstd::string::StrSliceExecFns;

verus! {

broadcast use vstd::string::group_string_axioms;

/// The characters of a string slice, in order.
pub fn chars_of(s: &str) -> (r: Vec<char>)
    ensures
        r@ == s@,
{
    let mut r: Vec<char> = Vec::new();
    for c in it: s.chars()
        invariant
            r@ == it.seq().take(it.index() as int),
            it.seq() == s@,
    {
        r.push(c);
    }
    r
}

} // verus!

verus! {

/// `needle` occurs in `hay` starting at position `i`.
pub open spec fn occurs_at(hay: Seq<char>, needle: Seq<char>, i: int) -> bool {
    0 <= i && i + needle.len() <= hay.len() && hay.subrange(i, i + needle.len()) == needle
}

/// `needle` occurs somewhere in `hay`.
pub open spec fn seq_contains(hay: Seq<char>, needle: Seq<char>) -> bool {
    exists|i: int| occurs_at(hay, needle, i)
}

/// Whether `needle` occurs in `hay` at position `i`.
pub fn matches_at(hay: &Vec<char>, needle: &Vec<char>, i: usize) -> (r: bool)
    ensures
        r == occurs_at(hay@, needle@, i as int),
{
    if needle.len() > hay.len() || i > hay.len() - needle.len() {
        return false;
    }
    let mut k: usize = 0;
    while k < needle.len()
        invariant
            i + needle.len() <= hay.len(),
            k <= needle.len(),
            forall|j: int| 0 <= j < k ==> hay@[i + j] == needle@[j],
        decreases needle.len() - k,
    {
        if hay[i + k] != needle[k] {
            assert(hay@.subrange(i as int, i + needle.len())[k as int] == hay@[i + k]);
            return false;
        }
        k = k + 1;
    }
    assert(hay@.subrange(i as int, i + needle.len()) =~= needle@);
    true
}

/// The first position at or after `from` where `needle` occurs in `hay`.
pub open spec fn first_occurrence_from(hay: Seq<char>, needle: Seq<char>, from: int, r: Option<usize>) -> bool {
    match r {
        Some(i) => from <= i && occurs_at(hay, needle, i as int) && forall|j: int| from <= j < i ==> !occurs_at(hay, needle, j),
        None => forall|j: int| from <= j ==> !occurs_at(hay, needle, j),
    }
}

/// Finds the first occurrence of `needle` in `hay` at or after `from`.
pub fn find_from(hay: &Vec<char>, needle: &Vec<char>, from: usize) -> (r: Option<usize>)
    ensures
        first_occurrence_from(hay@, needle@, from as int, r),
{
    if from > hay.len() {
        return None;
    }
    let mut i = from;
    loop
        invariant
            from <= i <= hay.len(),
            forall|j: int| from <= j < i ==> !occurs_at(hay@, needle@, j),
        decreases hay.len() - i,
    {
        if matches_at(hay, needle, i) {
            return Some(i);
        }
        if i == hay.len() {
            return None;
        }
        i = i + 1;
    }
}

/// Whether `needle` occurs in `hay`.
pub fn contains_seq(hay: &Vec<char>, needle: &Vec<char>) -> (r: bool)
    ensures
        r == seq_contains(hay@, needle@),
{
    match find_from(hay, needle, 0) {
        Some(i) => true,
        None => false,
    }
}

/// Whether `needle` occurs in `hay`.
pub fn str_contains(hay: &str, needle: &str) -> (r: bool)
    ensures
        r == seq_contains(hay@, needle@),
{
    let h = chars_of(hay);
    let n = chars_of(needle);
    contains_seq(&h, &n)
}

/// Whether two character sequences are equal.
pub fn chars_eq(a: &Vec<char>, b: &Vec<char>) -> (r: bool)
    ensures
        r == (a@ == b@),
{
    if a.len() != b.len() {
        return false;
    }
    let mut i: usize = 0;
    while i < a.len()
        invariant
            a.len() == b.len(),
            i <= a.len(),
            forall|j: int| 0 <= j < i ==> a@[j] == b@[j],
        decreases a.len() - i,
    {
        if a[i] != b[i] {
            return false;
        }
        i = i + 1;
    }
    assert(a@ =~= b@);
    true
}

/// Whether two strings are equal.
pub fn str_eq(a: &str, b: &str) -> (r: bool)
    ensures
        r == (a@ == b@),
{
    let x = chars_of(a);
    let y = chars_of(b);
    chars_eq(&x, &y)
}

/// The lowercase form of an ASCII character; other characters are unchanged.
pub open spec fn ascii_lower_char(c: char) -> char {
    if 'A' <= c && c <= 'Z' { ((c as u32) + 32) as char } else { c }
}

/// Whether every character is ASCII.
pub open spec fn all_ascii(s: Seq<char>) -> bool {
    forall|i: int| 0 <= i < s.len() ==> (s[i] as u32) < 128
}

/// The lowercase form of a string, as `str::to_lowercase` computes it.
pub uninterp spec fn lowercase_of(s: Seq<char>) -> Seq<char>;

/// Lowercase a string with `str::to_lowercase`. The result is named
/// [`lowercase_of`] of the input; for an ASCII input it is stated exactly
/// (each letter `A`-`Z` mapped to `a`-`z`, every other character kept), as the
/// standard library documents. The Unicode case mapping of other characters is
/// left unstated.
#[verifier::external_body]
pub fn to_lowercase(s: &str) -> (r: String)
    ensures
        r@ == lowercase_of(s@),
        all_ascii(s@) ==> r@ == s@.map_values(|c: char| ascii_lower_char(c)),
{
    s.to_lowercase()
}

} // verus!

verus! {

/// A character with the Unicode `White_Space` property, the set that
/// `char::is_whitespace` and `str::trim` use.
pub open spec fn is_ws(c: char) -> bool {
    let n = c as u32;
    ||| 0x9 <= n <= 0xd
    ||| n == 0x20
    ||| n == 0x85
    ||| n == 0xa0
    ||| n == 0x1680
    ||| 0x2000 <= n <= 0x200a
    ||| n == 0x2028
    ||| n == 0x2029
    ||| n == 0x202f
    ||| n == 0x205f
    ||| n == 0x3000
}

/// Whether a character is whitespace.
pub fn is_whitespace(c: char) -> (r: bool)
    ensures
        r == is_ws(c),
{
    let n = c as u32;
    (0x9 <= n && n <= 0xd) || n == 0x20 || n == 0x85 || n == 0xa0 || n == 0x1680 || (0x2000 <= n
        && n <= 0x200a) || n == 0x2028 || n == 0x2029 || n == 0x202f || n == 0x205f || n == 0x3000
}

/// The text without its leading whitespace.
pub open spec fn trim_start(s: Seq<char>) -> Seq<char>
    decreases s.len(),
{
    if s.len() > 0 && is_ws(s[0]) {
        trim_start(s.drop_first())
    } else {
        s
    }
}

/// The text without its trailing whitespace.
pub open spec fn trim_end(s: Seq<char>) -> Seq<char>
    decreases s.len(),
{
    if s.len() > 0 && is_ws(s.last()) {
        trim_end(s.drop_last())
    } else {
        s
    }
}

/// The text without leading and trailing whitespace, as `str::trim` gives it.
pub open spec fn trimmed(s: Seq<char>) -> Seq<char> {
    trim_end(trim_start(s))
}

/// The bounds of the trimmed part of `v[lo..hi]`.
pub fn trim_range(v: &Vec<char>, lo: usize, hi: usize) -> (r: (usize, usize))
    requires
        lo <= hi <= v.len(),
    ensures
        lo <= r.0 <= r.1 <= hi,
        v@.subrange(r.0 as int, r.1 as int) == trimmed(v@.subrange(lo as int, hi as int)),
{
    let mut a = lo;
    while a < hi && is_whitespace(v[a])
        invariant
            lo <= a <= hi <= v.len(),
            trim_start(v@.subrange(lo as int, hi as int)) == trim_start(v@.subrange(a as int, hi as int)),
        decreases hi - a,
    {
        assert(v@.subrange(a as int, hi as int).drop_first() =~= v@.subrange(a + 1, hi as int));
        a = a + 1;
    }
    let mut b = hi;
    while b > a && is_whitespace(v[b - 1])
        invariant
            lo <= a <= b <= hi <= v.len(),
            trim_end(v@.subrange(a as int, hi as int)) == trim_end(v@.subrange(a as int, b as int)),
        decreases b - a,
    {
        assert(v@.subrange(a as int, b as int).drop_last() =~= v@.subrange(a as int, b - 1));
        b = b - 1;
    }
    (a, b)
}

/// The characters of `s` from position `a` to position `b`, as a new string.
pub fn substring(s: &str, v: &Vec<char>, a: usize, b: usize) -> (r: String)
    requires
        v@ == s@,
        a <= b <= v.len(),
    ensures
        r@ == s@.subrange(a as int, b as int),
{
    let piece: &str = s.substring_char(a, b);
    piece.to_owned()
}

/// The position of the first character of `s` that is one of `delims`.
pub open spec fn find_any(s: Seq<char>, delims: Seq<char>) -> Option<int>
    decreases s.len(),
{
    if s.len() == 0 {
        None
    } else if delims.contains(s[0]) {
        Some(0)
    } else {
        match find_any(s.drop_first(), delims) {
            Some(i) => Some(i + 1),
            None => None,
        }
    }
}

/// `find_any` gives the first delimiter position, or none when there is none.
pub proof fn lemma_find_any(s: Seq<char>, delims: Seq<char>)
    ensures
        match find_any(s, delims) {
            Some(i) => 0 <= i < s.len() && delims.contains(s[i]) && forall|j: int|
                0 <= j < i ==> !delims.contains(#[trigger] s[j]),
            None => forall|j: int| 0 <= j < s.len() ==> !delims.contains(#[trigger] s[j]),
        },
    decreases s.len(),
{
    if s.len() > 0 && !delims.contains(s[0]) {
        lemma_find_any(s.drop_first(), delims);
        assert forall|j: int| 1 <= j < s.len() implies s[j] == s.drop_first()[j - 1] by {}
    }
}

/// The pieces of `s` between the delimiters, as `str::split` with a set of
/// characters gives them: always at least one piece.
pub open spec fn split_any(s: Seq<char>, delims: Seq<char>) -> Seq<Seq<char>>
    decreases s.len(),
{
    match find_any(s, delims) {
        Some(i) => {
            proof {
                lemma_find_any(s, delims);
            }
            seq![s.take(i)] + split_any(s.skip(i + 1), delims)
        },
        None => seq![s],
    }
}

/// The first position in `v[lo..hi]` holding one of `delims`.
pub fn find_any_in(v: &Vec<char>, lo: usize, hi: usize, delims: &Vec<char>) -> (r: Option<usize>)
    requires
        lo <= hi <= v.len(),
    ensures
        match r {
            Some(i) => lo <= i < hi && find_any(v@.subrange(lo as int, hi as int), delims@) == Some(
                i - lo,
            ),
            None => find_any(v@.subrange(lo as int, hi as int), delims@) is None,
        },
{
    let ghost s = v@.subrange(lo as int, hi as int);
    proof {
        lemma_find_any(s, delims@);
    }
    let mut i = lo;
    while i < hi
        invariant
            lo <= i <= hi <= v.len(),
            s == v@.subrange(lo as int, hi as int),
            forall|j: int| lo <= j < i ==> !delims@.contains(#[trigger] v@[j]),
            match find_any(s, delims@) {
                Some(k) => 0 <= k < s.len() && delims@.contains(s[k]) && forall|j: int|
                    0 <= j < k ==> !delims@.contains(#[trigger] s[j]),
                None => forall|j: int| 0 <= j < s.len() ==> !delims@.contains(#[trigger] s[j]),
            },
        decreases hi - i,
    {
        if contains_char(delims, v[i]) {
            proof {
                assert(s[i - lo] == v@[i as int]);
                match find_any(s, delims@) {
                    Some(k) => {
                        if k < i - lo {
                            assert(s[k] == v@[lo + k]);
                        }
                        if k > i - lo {
                            assert(!delims@.contains(s[i - lo]));
                        }
                    },
                    None => {
                        assert(!delims@.contains(s[i - lo]));
                    },
                }
            }
            return Some(i);
        }
        i = i + 1;
    }
    proof {
        match find_any(s, delims@) {
            Some(k) => {
                assert(s[k] == v@[lo + k]);
            },
            None => {},
        }
    }
    None
}

/// Whether `c` is one of the characters in `v`.
pub fn contains_char(v: &Vec<char>, c: char) -> (r: bool)
    ensures
        r == v@.contains(c),
{
    let mut i: usize = 0;
    while i < v.len()
        invariant
            i <= v.len(),
            forall|j: int| 0 <= j < i ==> v@[j] != c,
        decreases v.len() - i,
    {
        if v[i] == c {
            return true;
        }
        i = i + 1;
    }
    false
}

/// The bounds of the pieces of `v[lo..hi]` between the delimiters.
pub fn split_any_in(v: &Vec<char>, lo: usize, hi: usize, delims: &Vec<char>) -> (r: Vec<(usize, usize)>)
    requires
        lo <= hi <= v.len(),
    ensures
        r.len() == split_any(v@.subrange(lo as int, hi as int), delims@).len(),
        forall|k: int|
            0 <= k < r.len() ==> lo <= (#[trigger] r@[k]).0 <= r@[k].1 <= hi && v@.subrange(
                r@[k].0 as int,
                r@[k].1 as int,
            ) == split_any(v@.subrange(lo as int, hi as int), delims@)[k],
{
    let ghost whole = split_any(v@.subrange(lo as int, hi as int), delims@);
    let ghost mut done: Seq<Seq<char>> = Seq::empty();
    let mut r: Vec<(usize, usize)> = Vec::new();
    let mut pos = lo;
    proof {
        assert(done + split_any(v@.subrange(pos as int, hi as int), delims@) =~= whole);
    }
    loop
        invariant
            lo <= pos <= hi <= v.len(),
            whole == split_any(v@.subrange(lo as int, hi as int), delims@),
            done.len() == r.len(),
            done + split_any(v@.subrange(pos as int, hi as int), delims@) == whole,
            forall|k: int|
                0 <= k < r.len() ==> lo <= (#[trigger] r@[k]).0 <= r@[k].1 <= hi && v@.subrange(
                    r@[k].0 as int,
                    r@[k].1 as int,
                ) == done[k],
        decreases hi - pos,
    {
        let ghost rest = v@.subrange(pos as int, hi as int);
        match find_any_in(v, pos, hi, delims) {
            Some(i) => {
                proof {
                    assert(rest.take(i - pos) =~= v@.subrange(pos as int, i as int));
                    assert(rest.skip(i - pos + 1) =~= v@.subrange(i + 1, hi as int));
                    assert(split_any(rest, delims@) == seq![rest.take(i - pos)] + split_any(
                        rest.skip(i - pos + 1),
                        delims@,
                    ));
                    let ghost nd = done.push(v@.subrange(pos as int, i as int));
                    assert(nd + split_any(v@.subrange(i + 1, hi as int), delims@) =~= done + split_any(
                        rest,
                        delims@,
                    ));
                    done = nd;
                }
                r.push((pos, i));
                pos = i + 1;
            },
            None => {
                proof {
                    assert(split_any(rest, delims@) == seq![rest]);
                    done = done.push(rest);
                    assert(done =~= whole);
                }
                r.push((pos, hi));
                return r;
            },
        }
    }
}

} // verus!

verus! {

/// The first position at or after `from` where `needle` occurs in `hay`.
pub open spec fn find_seq_from(hay: Seq<char>, needle: Seq<char>, from: int) -> Option<int>
    decreases hay.len() - from,
{
    if 0 <= from <= hay.len() {
        if occurs_at(hay, needle, from) {
            Some(from)
        } else if from < hay.len() {
            find_seq_from(hay, needle, from + 1)
        } else {
            None
        }
    } else {
        None
    }
}

/// The first position where `needle` occurs in `hay`.
pub open spec fn find_seq(hay: Seq<char>, needle: Seq<char>) -> Option<int> {
    find_seq_from(hay, needle, 0)
}

pub proof fn lemma_find_seq_from(hay: Seq<char>, needle: Seq<char>, from: int, r: Option<usize>)
    requires
        0 <= from <= hay.len(),
        first_occurrence_from(hay, needle, from, r),
    ensures
        find_seq_from(hay, needle, from) == match r {
            Some(i) => Some(i as int),
            None => None::<int>,
        },
    decreases hay.len() - from,
{
    if !occurs_at(hay, needle, from) && from < hay.len() {
        lemma_find_seq_from(hay, needle, from + 1, r);
    }
}

/// The first position where `needle` occurs in `hay`.
pub fn find_first(hay: &Vec<char>, needle: &Vec<char>) -> (r: Option<usize>)
    ensures
        find_seq(hay@, needle@) == match r {
            Some(i) => Some(i as int),
            None => None::<int>,
        },
        r matches Some(i) ==> occurs_at(hay@, needle@, i as int),
{
    let r = find_from(hay, needle, 0);
    proof {
        lemma_find_seq_from(hay@, needle@, 0, r);
    }
    r
}

/// Whether `needle` occurs in `hay` (an empty needle occurs everywhere).
pub fn vec_contains(hay: &Vec<char>, needle: &Vec<char>) -> (r: bool)
    ensures
        r == seq_contains(hay@, needle@),
{
    contains_seq(hay, needle)
}

/// A decimal digit.
pub open spec fn is_digit(c: char) -> bool {
    '0' <= c <= '9'
}

/// All characters are decimal digits.
pub open spec fn all_digits(s: Seq<char>) -> bool {
    forall|i: int| 0 <= i < s.len() ==> is_digit(#[trigger] s[i])
}

/// The value of a string of decimal digits.
pub open spec fn decimal_value(s: Seq<char>) -> int
    decreases s.len(),
{
    if s.len() == 0 {
        0
    } else {
        decimal_value(s.drop_last()) * 10 + (s.last() as int - '0' as int)
    }
}

/// What `str::parse` gives for an unsigned integer type whose largest value is
/// `max`: an optional `+`, then one or more decimal digits whose value fits.
pub open spec fn parse_unsigned(s: Seq<char>, max: int) -> Option<int> {
    let digits = if s.len() > 0 && s[0] == '+' { s.drop_first() } else { s };
    if digits.len() > 0 && all_digits(digits) && decimal_value(digits) <= max {
        Some(decimal_value(digits))
    } else {
        None
    }
}

/// What `str::parse` gives for a signed integer type with range `min..=max`:
/// an optional `+` or `-`, then one or more decimal digits whose value fits.
pub open spec fn parse_signed(s: Seq<char>, min: int, max: int) -> Option<int> {
    if s.len() > 0 && s[0] == '-' {
        let digits = s.drop_first();
        if digits.len() > 0 && all_digits(digits) && -decimal_value(digits) >= min {
            Some(-decimal_value(digits))
        } else {
            None
        }
    } else {
        parse_unsigned(s, max)
    }
}

proof fn lemma_decimal_prefix(s: Seq<char>, k: int)
    requires
        0 <= k <= s.len(),
        all_digits(s),
    ensures
        0 <= decimal_value(s.take(k)) <= decimal_value(s),
    decreases s.len() - k,
{
    if k < s.len() {
        lemma_decimal_prefix(s, k + 1);
        assert(s.take(k + 1).drop_last() =~= s.take(k));
        assert(s.take(k + 1).last() == s[k]);
        lemma_decimal_nonneg(s.take(k));
    } else {
        assert(s.take(k) =~= s);
        lemma_decimal_nonneg(s);
    }
}

proof fn lemma_decimal_nonneg(s: Seq<char>)
    requires
        all_digits(s),
    ensures
        decimal_value(s) >= 0,
    decreases s.len(),
{
    if s.len() > 0 {
        assert(all_digits(s.drop_last())) by {
            assert forall|i: int| 0 <= i < s.drop_last().len() implies is_digit(
                #[trigger] s.drop_last()[i],
            ) by {
                assert(s.drop_last()[i] == s[i]);
            }
        }
        lemma_decimal_nonneg(s.drop_last());
        assert(is_digit(s[s.len() - 1]));
    }
}

/// The value of the digits `v[lo..hi]`, if they are one or more digits whose
/// value is at most `max`.
fn digits_value(v: &Vec<char>, lo: usize, hi: usize, max: u64) -> (r: Option<u64>)
    requires
        lo <= hi <= v.len(),
    ensures
        ({
            let s = v@.subrange(lo as int, hi as int);
            match r {
                Some(x) => s.len() > 0 && all_digits(s) && decimal_value(s) <= max && x == decimal_value(s),
                None => !(s.len() > 0 && all_digits(s) && decimal_value(s) <= max),
            }
        }),
{
    let ghost s = v@.subrange(lo as int, hi as int);
    if lo == hi {
        return None;
    }
    let mut acc: u128 = 0;
    let mut i = lo;
    while i < hi
        invariant
            lo <= i <= hi <= v.len(),
            s == v@.subrange(lo as int, hi as int),
            forall|j: int| 0 <= j < i - lo ==> is_digit(#[trigger] s[j]),
            acc == decimal_value(s.take(i - lo)),
            acc <= max,
        decreases hi - i,
    {
        let c = v[i];
        if !('0' <= c && c <= '9') {
            proof {
                assert(s[i - lo] == c);
            }
            return None;
        }
        let d = (c as u32 - '0' as u32) as u128;
        proof {
            assert(s.take(i - lo + 1).drop_last() =~= s.take(i - lo));
            assert(s.take(i - lo + 1).last() == s[i - lo]);
            assert(s[i - lo] == c);
        }
        acc = acc * 10 + d;
        i = i + 1;
        if acc > max as u128 {
            // The digits read so far already exceed `max`; a longer run of digits
            // only grows, and a later non-digit fails the parse anyway.
            proof {
                if all_digits(s) {
                    lemma_decimal_prefix(s, i - lo);
                }
            }
            return None;
        }
    }
    proof {
        assert(s.take(s.len() as int) =~= s);
    }
    Some(acc as u64)
}

} // verus!

verus! {

/// `v[lo..hi]` parsed as an unsigned integer no larger than `max`, as
/// `str::parse` does for the unsigned type whose largest value is `max`.
pub fn parse_unsigned_in(v: &Vec<char>, lo: usize, hi: usize, max: u64) -> (r: Option<u64>)
    requires
        lo <= hi <= v.len(),
    ensures
        parse_unsigned(v@.subrange(lo as int, hi as int), max as int) == match r {
            Some(x) => Some(x as int),
            None => None::<int>,
        },
{
    let ghost s = v@.subrange(lo as int, hi as int);
    let start = if lo < hi && v[lo] == '+' { lo + 1 } else { lo };
    proof {
        if lo < hi && v@[lo as int] == '+' {
            assert(s.drop_first() =~= v@.subrange(lo + 1, hi as int));
        }
    }
    digits_value(v, start, hi, max)
}

/// `v[lo..hi]` parsed as a signed integer in `min..=max`, as `str::parse`
/// does for the signed type with that range.
pub fn parse_signed_in(v: &Vec<char>, lo: usize, hi: usize, min: i64, max: i64) -> (r: Option<i64>)
    requires
        lo <= hi <= v.len(),
        min <= 0 <= max,
    ensures
        parse_signed(v@.subrange(lo as int, hi as int), min as int, max as int) == match r {
            Some(x) => Some(x as int),
            None => None::<int>,
        },
{
    let ghost s = v@.subrange(lo as int, hi as int);
    if lo < hi && v[lo] == '-' {
        proof {
            assert(s.drop_first() =~= v@.subrange(lo + 1, hi as int));
        }
        let limit: u64 = (0 - (min as i128)) as u64;
        match digits_value(v, lo + 1, hi, limit) {
            Some(x) => Some((0 - (x as i128)) as i64),
            None => None,
        }
    } else {
        match parse_unsigned_in(v, lo, hi, max as u64) {
            Some(x) => Some(x as i64),
            None => None,
        }
    }
}

/// Append `tail` to `s` with `String::push_str`, which the standard library
/// documents as appending the given slice to the end of the string.
#[verifier::external_body]
pub fn push_str(s: &mut String, tail: &str)
    ensures
        final(s)@ == old(s)@ + tail@,
{
    s.push_str(tail);
}

/// A new string holding `a` followed by `b`.
pub fn concat2(a: &str, b: &str) -> (r: String)
    ensures
        r@ == a@ + b@,
{
    let mut r = a.to_owned();
    push_str(&mut r, b);
    r
}

/// A new string holding `a` followed by `b` followed by `c`.
pub fn concat3(a: &str, b: &str, c: &str) -> (r: String)
    ensures
        r@ == a@ + b@ + c@,
{
    let mut r = a.to_owned();
    push_str(&mut r, b);
    push_str(&mut r, c);
    r
}

} // verus!

verus! {

/// The decimal digit character for `d` in `0..10`.
pub open spec fn digit_char(d: int) -> char {
    ('0' as int + d) as char
}

/// The decimal text of a number, without leading zeros.
pub open spec fn decimal_text(n: nat) -> Seq<char>
    decreases n,
{
    if n < 10 {
        seq![digit_char(n as int)]
    } else {
        decimal_text(n / 10).push(digit_char((n % 10) as int))
    }
}

/// The decimal text of `n`, as `usize`'s `Display` writes it.
pub fn decimal_string(n: usize) -> (r: String)
    ensures
        r@ == decimal_text(n as nat),
    decreases n,
{
    let digits: &str = "0123456789";
    proof {
        reveal_strlit("0123456789");
    }
    let d = n % 10;
    let last: &str = digits.substring_char(d, d + 1);
    proof {
        assert(last@ =~= seq![digit_char(d as int)]);
    }
    if n < 10 {
        last.to_owned()
    } else {
        let mut r = decimal_string(n / 10);
        push_str(&mut r, last);
        r
    }
}

} // verus!

verus! {

/// The position of the first whitespace character of `s`.
pub open spec fn find_ws(s: Seq<char>) -> Option<int>
    decreases s.len(),
{
    if s.len() == 0 {
        None
    } else if is_ws(s[0]) {
        Some(0)
    } else {
        match find_ws(s.drop_first()) {
            Some(i) => Some(i + 1),
            None => None,
        }
    }
}

/// `find_ws` gives the first whitespace position, or none when there is none.
pub proof fn lemma_find_ws(s: Seq<char>)
    ensures
        match find_ws(s) {
            Some(i) => 0 <= i < s.len() && is_ws(s[i]) && forall|j: int| 0 <= j < i ==> !is_ws(#[trigger] s[j]),
            None => forall|j: int| 0 <= j < s.len() ==> !is_ws(#[trigger] s[j]),
        },
    decreases s.len(),
{
    if s.len() > 0 && !is_ws(s[0]) {
        lemma_find_ws(s.drop_first());
        assert forall|j: int| 1 <= j < s.len() implies s[j] == s.drop_first()[j - 1] by {}
    }
}

/// The pieces of `s` between single whitespace characters (some may be empty).
pub open spec fn split_ws(s: Seq<char>) -> Seq<Seq<char>>
    decreases s.len(),
{
    match find_ws(s) {
        Some(i) => {
            proof {
                lemma_find_ws(s);
            }
            seq![s.take(i)] + split_ws(s.skip(i + 1))
        },
        None => seq![s],
    }
}

/// The pieces that are not empty, in order.
pub open spec fn nonempty_pieces(parts: Seq<Seq<char>>) -> Seq<Seq<char>>
    decreases parts.len(),
{
    if parts.len() == 0 {
        Seq::empty()
    } else if parts.last().len() > 0 {
        nonempty_pieces(parts.drop_last()).push(parts.last())
    } else {
        nonempty_pieces(parts.drop_last())
    }
}

/// The words of `s`, as `str::split_whitespace` gives them.
pub open spec fn words(s: Seq<char>) -> Seq<Seq<char>> {
    nonempty_pieces(split_ws(s))
}

fn find_ws_in(v: &Vec<char>, lo: usize, hi: usize) -> (r: Option<usize>)
    requires
        lo <= hi <= v.len(),
    ensures
        match r {
            Some(i) => lo <= i < hi && find_ws(v@.subrange(lo as int, hi as int)) == Some(i - lo),
            None => find_ws(v@.subrange(lo as int, hi as int)) is None,
        },
{
    let ghost s = v@.subrange(lo as int, hi as int);
    proof {
        lemma_find_ws(s);
    }
    let mut i = lo;
    while i < hi
        invariant
            lo <= i <= hi <= v.len(),
            s == v@.subrange(lo as int, hi as int),
            forall|j: int| lo <= j < i ==> !is_ws(#[trigger] v@[j]),
            match find_ws(s) {
                Some(k) => 0 <= k < s.len() && is_ws(s[k]) && forall|j: int| 0 <= j < k ==> !is_ws(#[trigger] s[j]),
                None => forall|j: int| 0 <= j < s.len() ==> !is_ws(#[trigger] s[j]),
            },
        decreases hi - i,
    {
        if is_whitespace(v[i]) {
            proof {
                assert(s[i - lo] == v@[i as int]);
                match find_ws(s) {
                    Some(k) => {
                        if k < i - lo {
                            assert(s[k] == v@[lo + k]);
                        }
                        if k > i - lo {
                            assert(!is_ws(s[i - lo]));
                        }
                    },
                    None => {
                        assert(!is_ws(s[i - lo]));
                    },
                }
            }
            return Some(i);
        }
        i = i + 1;
    }
    proof {
        match find_ws(s) {
            Some(k) => {
                assert(s[k] == v@[lo + k]);
            },
            None => {},
        }
    }
    None
}

/// The bounds of the words of `v[lo..hi]`.
pub fn words_in(v: &Vec<char>, lo: usize, hi: usize) -> (r: Vec<(usize, usize)>)
    requires
        lo <= hi <= v.len(),
    ensures
        r.len() == words(v@.subrange(lo as int, hi as int)).len(),
        forall|k: int|
            0 <= k < r.len() ==> lo <= (#[trigger] r@[k]).0 <= r@[k].1 <= hi && v@.subrange(
                r@[k].0 as int,
                r@[k].1 as int,
            ) == words(v@.subrange(lo as int, hi as int))[k],
{
    let ghost pieces = split_ws(v@.subrange(lo as int, hi as int));
    let ghost mut done: Seq<Seq<char>> = Seq::empty();
    let mut r: Vec<(usize, usize)> = Vec::new();
    let mut pos = lo;
    proof {
        assert(done + split_ws(v@.subrange(pos as int, hi as int)) =~= pieces);
    }
    loop
        invariant
            lo <= pos <= hi <= v.len(),
            pieces == split_ws(v@.subrange(lo as int, hi as int)),
            nonempty_pieces(done) == words(v@.subrange(lo as int, hi as int)).take(r.len() as int),
            done + split_ws(v@.subrange(pos as int, hi as int)) == pieces,
            r.len() == nonempty_pieces(done).len(),
            forall|k: int|
                0 <= k < r.len() ==> lo <= (#[trigger] r@[k]).0 <= r@[k].1 <= hi && v@.subrange(
                    r@[k].0 as int,
                    r@[k].1 as int,
                ) == nonempty_pieces(done)[k],
        decreases hi - pos,
    {
        let ghost rest = v@.subrange(pos as int, hi as int);
        let (end, last) = match find_ws_in(v, pos, hi) {
            Some(i) => {
                proof {
                    assert(rest.take(i - pos) =~= v@.subrange(pos as int, i as int));
                    assert(rest.skip(i - pos + 1) =~= v@.subrange(i + 1, hi as int));
                }
                (i, false)
            },
            None => {
                proof {
                    assert(rest =~= v@.subrange(pos as int, hi as int));
                }
                (hi, true)
            },
        };
        let ghost piece = v@.subrange(pos as int, end as int);
        let ghost nd = done.push(piece);
        proof {
            assert(nd.drop_last() =~= done);
            if !last {
                assert(nd + split_ws(v@.subrange(end + 1, hi as int)) =~= done + split_ws(rest));
            } else {
                assert(nd =~= done + split_ws(rest));
            }
        }
        if pos < end {
            r.push((pos, end));
        }
        proof {
            done = nd;
            if last {
                assert(done =~= pieces);
                assert(nonempty_pieces(done) =~= words(v@.subrange(lo as int, hi as int)).take(r.len() as int));
            } else {
                lemma_nonempty_prefix(pieces, done);
            }
        }
        if last {
            return r;
        }
        pos = end + 1;
    }
}

proof fn lemma_nonempty_prefix(all: Seq<Seq<char>>, pre: Seq<Seq<char>>)
    requires
        pre.len() <= all.len(),
        pre =~= all.take(pre.len() as int),
    ensures
        nonempty_pieces(pre) == nonempty_pieces(all).take(nonempty_pieces(pre).len() as int),
        nonempty_pieces(pre).len() <= nonempty_pieces(all).len(),
    decreases all.len(),
{
    if pre.len() < all.len() {
        assert(all.drop_last().take(pre.len() as int) =~= pre);
        lemma_nonempty_prefix(all.drop_last(), pre);
        if all.last().len() > 0 {
            assert(nonempty_pieces(all).take(nonempty_pieces(pre).len() as int) =~= nonempty_pieces(
                all.drop_last(),
            ).take(nonempty_pieces(pre).len() as int));
        }
    } else {
        assert(pre =~= all);
        assert(nonempty_pieces(all).take(nonempty_pieces(all).len() as int) =~= nonempty_pieces(all));
    }
}

} // verus!

verus! {

/// Searching a suffix of `hay` is searching `hay` from where the suffix starts.
pub proof fn lemma_find_seq_shift(hay: Seq<char>, needle: Seq<char>, m: int, from: int)
    requires
        0 <= m <= from <= hay.len(),
    ensures
        find_seq_from(hay, needle, from) == match find_seq_from(hay.skip(m), needle, from - m) {
            Some(j) => Some(j + m),
            None => None::<int>,
        },
    decreases hay.len() - from,
{
    let suffix = hay.skip(m);
    if from + needle.len() <= hay.len() {
        assert(suffix.subrange(from - m, from - m + needle.len()) =~= hay.subrange(from, from + needle.len()));
    }
    if !occurs_at(hay, needle, from) && from < hay.len() {
        lemma_find_seq_shift(hay, needle, m, from + 1);
    }
}

/// The text after the first `pat` in `s`, up to the next `pat` (or the end):
/// the second piece of `s.split(pat)`.
pub open spec fn after_first(s: Seq<char>, pat: Seq<char>) -> Option<Seq<char>> {
    match find_seq(s, pat) {
        None => None,
        Some(i) => {
            let rest = s.skip(i + pat.len());
            Some(
                match find_seq(rest, pat) {
                    Some(j) => rest.take(j),
                    None => rest,
                },
            )
        },
    }
}

/// The first piece of the trimmed text when split at any of `delims`, trimmed.
pub open spec fn first_token(s: Seq<char>, delims: Seq<char>) -> Seq<char> {
    let t = trimmed(s);
    trimmed(
        match find_any(t, delims) {
            Some(k) => t.take(k),
            None => t,
        },
    )
}

/// The value token of a `pat` field: the first token after the first `pat`.
pub open spec fn field_token(s: Seq<char>, pat: Seq<char>, delims: Seq<char>) -> Option<Seq<char>> {
    match after_first(s, pat) {
        Some(rest) => Some(first_token(rest, delims)),
        None => None,
    }
}

/// The bounds in `v` of the text after the first `pat`, up to the next `pat`.
pub fn after_first_in(v: &Vec<char>, pat: &Vec<char>) -> (r: Option<(usize, usize)>)
    requires
        pat.len() > 0,
    ensures
        match r {
            Some((a, b)) => a <= b <= v.len() && after_first(v@, pat@) == Some(v@.subrange(a as int, b as int)),
            None => after_first(v@, pat@) is None,
        },
{
    let i = match find_first(v, pat) {
        None => return None,
        Some(i) => i,
    };
    assert(occurs_at(v@, pat@, i as int));
    assert(i + pat@.len() <= v@.len());
    let n = pat.len();
    assert(v.len() <= usize::MAX);
    let start = i + n;
    let ghost rest = v@.skip(start as int);
    let second = find_from(v, pat, start);
    proof {
        lemma_find_seq_from(v@, pat@, start as int, second);
        lemma_find_seq_shift(v@, pat@, start as int, start as int);
        assert(rest =~= v@.subrange(start as int, v@.len() as int));
    }
    match second {
        Some(j) => {
            proof {
                assert(rest.take(j - start) =~= v@.subrange(start as int, j as int));
            }
            Some((start, j))
        },
        None => Some((start, v.len())),
    }
}

/// The bounds in `v` of the value token of a `pat` field.
pub fn field_token_in(v: &Vec<char>, pat: &Vec<char>, delims: &Vec<char>) -> (r: Option<(usize, usize)>)
    requires
        pat.len() > 0,
    ensures
        match r {
            Some((a, b)) => a <= b <= v.len() && field_token(v@, pat@, delims@) == Some(
                v@.subrange(a as int, b as int),
            ),
            None => field_token(v@, pat@, delims@) is None,
        },
{
    let (a, b) = match after_first_in(v, pat) {
        None => return None,
        Some(ab) => ab,
    };
    let (ta, tb) = trim_range(v, a, b);
    let ghost t = v@.subrange(ta as int, tb as int);
    let end = match find_any_in(v, ta, tb, delims) {
        Some(k) => {
            proof {
                assert(t.take(k - ta) =~= v@.subrange(ta as int, k as int));
            }
            k
        },
        None => tb,
    };
    let (xa, xb) = trim_range(v, ta, end);
    Some((xa, xb))
}

/// The text without all its leading `+` signs.
pub open spec fn strip_all_plus(s: Seq<char>) -> Seq<char>
    decreases s.len(),
{
    if s.len() > 0 && s[0] == '+' {
        strip_all_plus(s.drop_first())
    } else {
        s
    }
}

/// The text without one leading `+` sign, if it has one.
pub open spec fn strip_one_plus(s: Seq<char>) -> Seq<char> {
    if s.len() > 0 && s[0] == '+' {
        s.drop_first()
    } else {
        s
    }
}

/// The start of `v[lo..hi]` after all its leading `+` signs.
pub fn skip_all_plus(v: &Vec<char>, lo: usize, hi: usize) -> (r: usize)
    requires
        lo <= hi <= v.len(),
    ensures
        lo <= r <= hi,
        v@.subrange(r as int, hi as int) == strip_all_plus(v@.subrange(lo as int, hi as int)),
{
    let mut a = lo;
    while a < hi && v[a] == '+'
        invariant
            lo <= a <= hi <= v.len(),
            strip_all_plus(v@.subrange(lo as int, hi as int)) == strip_all_plus(v@.subrange(a as int, hi as int)),
        decreases hi - a,
    {
        assert(v@.subrange(a as int, hi as int).drop_first() =~= v@.subrange(a + 1, hi as int));
        a = a + 1;
    }
    a
}

} // verus!

verus! {

proof fn lemma_digit_char(d: int)
    requires
        0 <= d < 10,
    ensures
        digit_char(d) as int == '0' as int + d,
        is_digit(digit_char(d)),
{
    if d == 0 {
        assert(digit_char(d) == '0');
    } else if d == 1 {
        assert(digit_char(d) == '1');
    } else if d == 2 {
        assert(digit_char(d) == '2');
    } else if d == 3 {
        assert(digit_char(d) == '3');
    } else if d == 4 {
        assert(digit_char(d) == '4');
    } else if d == 5 {
        assert(digit_char(d) == '5');
    } else if d == 6 {
        assert(digit_char(d) == '6');
    } else if d == 7 {
        assert(digit_char(d) == '7');
    } else if d == 8 {
        assert(digit_char(d) == '8');
    } else {
        assert(digit_char(d) == '9');
    }
}

/// The decimal text of a number is one or more digits, whose value is the number.
pub proof fn lemma_decimal_text(n: nat)
    ensures
        decimal_text(n).len() > 0,
        all_digits(decimal_text(n)),
        decimal_value(decimal_text(n)) == n,
    decreases n,
{
    if n < 10 {
        lemma_digit_char(n as int);
        let s = decimal_text(n);
        assert(s.drop_last() =~= Seq::<char>::empty());
        assert(decimal_value(s.drop_last()) == 0);
        assert(s.last() == digit_char(n as int));
        assert(is_digit(s[0]));
    } else {
        lemma_digit_char((n % 10) as int);
        lemma_decimal_text(n / 10);
        let s = decimal_text(n);
        assert(s.drop_last() =~= decimal_text(n / 10));
        assert(s.last() == digit_char((n % 10) as int));
        assert((n / 10) * 10 + n % 10 == n) by (nonlinear_arith);
        assert(decimal_value(s) == decimal_value(decimal_text(n / 10)) * 10 + (n % 10));
        assert forall|i: int| 0 <= i < s.len() implies is_digit(#[trigger] s[i]) by {
            if i < s.len() - 1 {
                assert(s[i] == decimal_text(n / 10)[i]);
            }
        }
    }
}

/// A text in which no character is a delimiter is a single piece.
pub proof fn lemma_split_none(s: Seq<char>, delims: Seq<char>)
    requires
        forall|i: int| 0 <= i < s.len() ==> !delims.contains(#[trigger] s[i]),
    ensures
        split_any(s, delims) == seq![s],
{
    lemma_find_any(s, delims);
}

/// Splitting `a`, a delimiter `d`, then `b`, where `a` holds no delimiter,
/// gives `a` followed by the pieces of `b`.
pub proof fn lemma_split_first(a: Seq<char>, d: char, b: Seq<char>, delims: Seq<char>)
    requires
        forall|i: int| 0 <= i < a.len() ==> !delims.contains(#[trigger] a[i]),
        delims.contains(d),
    ensures
        split_any(a + seq![d] + b, delims) == seq![a] + split_any(b, delims),
{
    let s = a + seq![d] + b;
    lemma_find_any(s, delims);
    assert(s[a.len() as int] == d);
    match find_any(s, delims) {
        Some(i) => {
            if i < a.len() {
                assert(s[i] == a[i]);
            }
            assert(i == a.len());
            assert(s.take(i) =~= a);
            assert(s.skip(i + 1) =~= b);
        },
        None => {},
    }
}

} // verus!
