//! Character properties and conversions between `str`, `String` and
//! character vectors.

use vstd::prelude::*;
use unicode_segmentation::UnicodeSegmentation;

verus! {

/// The Unicode `White_Space` property, which is what `char::is_whitespace`
/// tests: U+0009..U+000D, U+0020, U+0085, U+00A0, U+1680, U+2000..U+200A,
/// U+2028, U+2029, U+202F, U+205F and U+3000.
pub open spec fn spec_is_whitespace(c: char) -> bool {
    let v = c as u32;
    ||| 0x9 <= v <= 0xd
    ||| v == 0x20
    ||| v == 0x85
    ||| v == 0xa0
    ||| v == 0x1680
    ||| 0x2000 <= v <= 0x200a
    ||| v == 0x2028
    ||| v == 0x2029
    ||| v == 0x202f
    ||| v == 0x205f
    ||| v == 0x3000
}

/// Whether `c` has the Unicode `White_Space` property.
pub fn is_whitespace(c: char) -> (r: bool)
    ensures
        r == spec_is_whitespace(c),
{
    let v = c as u32;
    (0x9 <= v && v <= 0xd) || v == 0x20 || v == 0x85 || v == 0xa0 || v == 0x1680 || (0x2000 <= v
        && v <= 0x200a) || v == 0x2028 || v == 0x2029 || v == 0x202f || v == 0x205f || v == 0x3000
}

/// The general category `Cc` (control characters): U+0000..U+001F and
/// U+007F..U+009F, which is what `char::is_control` tests.
pub open spec fn spec_is_control(c: char) -> bool {
    let v = c as u32;
    v <= 0x1f || (0x7f <= v && v <= 0x9f)
}

/// Whether `c` is a control character (general category `Cc`).
pub fn is_control(c: char) -> (r: bool)
    ensures
        r == spec_is_control(c),
{
    let v = c as u32;
    v <= 0x1f || (0x7f <= v && v <= 0x9f)
}

/// ASCII lowercase letters `a..=z`.
pub open spec fn spec_is_ascii_lowercase(c: char) -> bool {
    97 <= c as u32 <= 122
}

/// ASCII uppercase letters `A..=Z`.
pub open spec fn spec_is_ascii_uppercase(c: char) -> bool {
    65 <= c as u32 <= 90
}

/// ASCII decimal digits `0..=9`.
pub open spec fn spec_is_ascii_digit(c: char) -> bool {
    48 <= c as u32 <= 57
}

/// Whether `c` is an ASCII lowercase letter.
pub fn is_ascii_lowercase(c: char) -> (r: bool)
    ensures
        r == spec_is_ascii_lowercase(c),
{
    let v = c as u32;
    97 <= v && v <= 122
}

/// Whether `c` is an ASCII decimal digit.
pub fn is_ascii_digit(c: char) -> (r: bool)
    ensures
        r == spec_is_ascii_digit(c),
{
    let v = c as u32;
    48 <= v && v <= 57
}

/// The value of an ASCII digit.
pub fn ascii_digit_value(c: char) -> (r: u32)
    requires
        spec_is_ascii_digit(c),
    ensures
        r == (c as u32) - 48,
        r <= 9,
{
    (c as u32) - 48
}

/// Whether `v` is the scalar value of some `char`: below 0xD800, or from
/// 0xE000 up to 0x10FFFF.
pub open spec fn is_scalar_value(v: u32) -> bool {
    v < 0xd800 || (0xe000 <= v && v <= 0x10ffff)
}

/// `char::from_u32`: the character whose scalar value is `v`, or `None`
/// when `v` is a surrogate or above 0x10FFFF (as its documentation states).
#[verifier::external_body]
pub(crate) fn char_from_u32(v: u32) -> (r: Option<char>)
    ensures
        r is Some <==> is_scalar_value(v),
        r matches Some(c) ==> c as u32 == v,
{
    char::from_u32(v)
}

/// `char::to_ascii_uppercase`: an ASCII lowercase letter becomes the
/// uppercase letter 32 code points below it; every other character is
/// returned as it is.
pub fn to_ascii_uppercase(c: char) -> (r: char)
    ensures
        spec_is_ascii_lowercase(c) ==> r as u32 == c as u32 - 32 && spec_is_ascii_uppercase(r),
        !spec_is_ascii_lowercase(c) ==> r == c,
{
    if is_ascii_lowercase(c) {
        let v = (c as u32) - 32;
        let r = char_from_u32(v);
        match r {
            Some(u) => {
                u
            },
            None => c,
        }
    } else {
        c
    }
}

/// The Unicode `Alphabetic` or `Numeric` property of `c`, as
/// `char::is_alphanumeric` reports it.
pub uninterp spec fn unicode_is_alphanumeric(c: char) -> bool;

/// `char::is_alphanumeric`. Its contract ties the answer to the name
/// `unicode_is_alphanumeric` and states the answer for ASCII, where the
/// `Alphabetic` and `Numeric` properties hold of the letters and the
/// digits alone.
#[verifier::external_body]
pub(crate) fn is_alphanumeric(c: char) -> (r: bool)
    ensures
        r == unicode_is_alphanumeric(c),
        (c as u32) < 0x80 ==> (r <==> (spec_is_ascii_lowercase(c) || spec_is_ascii_uppercase(c) || spec_is_ascii_digit(c))),
{
    c.is_alphanumeric()
}

/// The Unicode `Alphabetic` property of `c`, as `char::is_alphabetic`
/// reports it.
pub uninterp spec fn unicode_is_alphabetic(c: char) -> bool;

/// `char::is_alphabetic`; for ASCII, where the `Alphabetic` property holds
/// of the letters alone, whether `c` is a letter.
#[verifier::external_body]
pub(crate) fn is_alphabetic(c: char) -> (r: bool)
    ensures
        r == unicode_is_alphabetic(c),
        (c as u32) < 0x80 ==> (r <==> (spec_is_ascii_lowercase(c) || spec_is_ascii_uppercase(c))),
{
    c.is_alphabetic()
}

/// The Unicode `Lowercase` property, as `char::is_lowercase` reports it.
pub uninterp spec fn unicode_is_lowercase(c: char) -> bool;

/// The Unicode `Uppercase` property, as `char::is_uppercase` reports it.
pub uninterp spec fn unicode_is_uppercase(c: char) -> bool;

/// The full uppercase mapping of `c`, as `char::to_uppercase` yields it.
pub uninterp spec fn unicode_to_uppercase(c: char) -> Seq<char>;

/// The full lowercase mapping of `c`, as `char::to_lowercase` yields it.
pub uninterp spec fn unicode_to_lowercase(c: char) -> Seq<char>;

/// `char::is_lowercase`; ASCII lowercase letters are lowercase.
#[verifier::external_body]
pub(crate) fn is_lowercase(c: char) -> (r: bool)
    ensures
        r == unicode_is_lowercase(c),
        spec_is_ascii_lowercase(c) ==> r,
{
    c.is_lowercase()
}

/// `char::is_uppercase`; ASCII uppercase letters are uppercase.
#[verifier::external_body]
pub(crate) fn is_uppercase(c: char) -> (r: bool)
    ensures
        r == unicode_is_uppercase(c),
        spec_is_ascii_uppercase(c) ==> r,
{
    c.is_uppercase()
}

/// `char::to_uppercase`, collected into a vector.
#[verifier::external_body]
pub(crate) fn to_uppercase(c: char) -> (r: Vec<char>)
    ensures
        r@ == unicode_to_uppercase(c),
{
    c.to_uppercase().collect()
}

/// `char::to_lowercase`, collected into a vector.
#[verifier::external_body]
pub(crate) fn to_lowercase(c: char) -> (r: Vec<char>)
    ensures
        r@ == unicode_to_lowercase(c),
{
    c.to_lowercase().collect()
}

/// Collects characters into a `String` (`FromIterator<char>`).
#[verifier::external_body]
pub(crate) fn string_from_chars(v: &Vec<char>) -> (s: String)
    ensures
        s@ == v@,
{
    v.iter().collect()
}

/// The characters of `s`, in order.
pub fn chars_of(s: &str) -> (v: Vec<char>)
    ensures
        v@ == s@,
{
    let n = s.unicode_len();
    let mut v: Vec<char> = Vec::new();
    let mut i: usize = 0;
    while i < n
        invariant
            n == s@.len(),
            i <= n,
            v@ == s@.subrange(0, i as int),
        decreases n - i,
    {
        let c = s.get_char(i);
        v.push(c);
        i = i + 1;
        assert(v@ =~= s@.subrange(0, i as int));
    }
    assert(v@ =~= s@);
    v
}

/// Appends the characters of `s` to `v`.
pub fn push_str(v: &mut Vec<char>, s: &str)
    ensures
        final(v)@ == old(v)@ + s@,
{
    let w = chars_of(s);
    let mut i: usize = 0;
    let ghost v0 = v@;
    while i < w.len()
        invariant
            i <= w@.len(),
            w@ == s@,
            v@ == v0 + w@.subrange(0, i as int),
        decreases w.len() - i,
    {
        v.push(w[i]);
        i = i + 1;
        assert(v@ =~= v0 + w@.subrange(0, i as int));
    }
    assert(w@.subrange(0, w@.len() as int) =~= w@);
}

/// Appends all of `w` to `v`.
pub fn push_all(v: &mut Vec<char>, w: &Vec<char>)
    ensures
        final(v)@ == old(v)@ + w@,
{
    let mut i: usize = 0;
    let ghost v0 = v@;
    while i < w.len()
        invariant
            i <= w@.len(),
            v@ == v0 + w@.subrange(0, i as int),
        decreases w.len() - i,
    {
        v.push(w[i]);
        i = i + 1;
        assert(v@ =~= v0 + w@.subrange(0, i as int));
    }
    assert(w@.subrange(0, w@.len() as int) =~= w@);
}

/// The extended grapheme clusters of `s` (UAX #29), in order, as
/// `unicode_segmentation` splits them.
pub uninterp spec fn spec_graphemes(s: Seq<char>) -> Seq<Seq<char>>;

/// `UnicodeSegmentation::graphemes(s, true)`, each cluster copied into a
/// `String`. The contract ties the clusters to the name `spec_graphemes`;
/// it states nothing of where the cluster boundaries lie.
#[verifier::external_body]
pub(crate) fn graphemes(s: &str) -> (r: Vec<String>)
    ensures
        r@.len() == spec_graphemes(s@).len(),
        forall|i: int| 0 <= i < r@.len() ==> #[trigger] r@[i]@ == spec_graphemes(s@)[i],
{
    s.graphemes(true).map(String::from).collect()
}

/// The lowercase form of a string, as `str::to_lowercase` gives it: each
/// character mapped by the Unicode `Lowercase` mapping, with the final
/// sigma rule for `Σ`.
pub uninterp spec fn unicode_str_to_lowercase(s: Seq<char>) -> Seq<char>;

/// `str::to_lowercase`.
#[verifier::external_body]
pub(crate) fn str_to_lowercase(s: &str) -> (r: String)
    ensures
        r@ == unicode_str_to_lowercase(s@),
{
    s.to_lowercase()
}

/// The decimal digit `d` (`d < 10`).
pub open spec fn digit_char(d: nat) -> char {
    if d == 0 { '0' } else if d == 1 { '1' } else if d == 2 { '2' } else if d == 3 { '3' }
    else if d == 4 { '4' } else if d == 5 { '5' } else if d == 6 { '6' } else if d == 7 { '7' }
    else if d == 8 { '8' } else { '9' }
}

/// The decimal digits of `n`, without leading zeros.
pub open spec fn spec_decimal(n: nat) -> Seq<char>
    decreases n,
{
    if n < 10 {
        seq![digit_char(n)]
    } else {
        spec_decimal(n / 10).push(digit_char(n % 10))
    }
}

/// The digit character for `d`.
fn digit_to_char(d: u64) -> (c: char)
    requires
        d < 10,
    ensures
        c == digit_char(d as nat),
{
    if d == 0 { '0' } else if d == 1 { '1' } else if d == 2 { '2' } else if d == 3 { '3' }
    else if d == 4 { '4' } else if d == 5 { '5' } else if d == 6 { '6' } else if d == 7 { '7' }
    else if d == 8 { '8' } else { '9' }
}

/// The decimal digits of `n`.
pub fn decimal_chars(n: u64) -> (v: Vec<char>)
    ensures
        v@ == spec_decimal(n as nat),
    decreases n,
{
    if n < 10 {
        let mut v: Vec<char> = Vec::new();
        v.push(digit_to_char(n));
        assert(v@ =~= seq![digit_char(n as nat)]);
        v
    } else {
        let mut v = decimal_chars(n / 10);
        v.push(digit_to_char(n % 10));
        v
    }
}

/// The pieces of `s` between occurrences of `sep` (`str::split`): one
/// more piece than `s` has separators.
pub open spec fn split_on(s: Seq<char>, sep: char) -> Seq<Seq<char>>
    decreases s.len(),
{
    if s.len() == 0 {
        seq![Seq::<char>::empty()]
    } else {
        let r = split_on(s.drop_last(), sep);
        if s.last() == sep {
            r.push(Seq::<char>::empty())
        } else {
            r.update(r.len() - 1, r.last().push(s.last()))
        }
    }
}

/// Splitting always gives at least one piece.
pub proof fn lemma_split_on_nonempty(s: Seq<char>, sep: char)
    ensures
        split_on(s, sep).len() >= 1,
    decreases s.len(),
{
    if s.len() > 0 {
        lemma_split_on_nonempty(s.drop_last(), sep);
    }
}

/// The views of a sequence of character vectors.
pub open spec fn views(v: Seq<Vec<char>>) -> Seq<Seq<char>> {
    Seq::new(v.len(), |i: int| v[i]@)
}

/// `s` split at each `sep`.
pub fn split_chars(s: &Vec<char>, sep: char) -> (r: Vec<Vec<char>>)
    ensures
        views(r@) == split_on(s@, sep),
{
    let mut toks: Vec<Vec<char>> = Vec::new();
    let mut cur: Vec<char> = Vec::new();
    let mut i: usize = 0;
    assert(views(toks@).push(cur@) =~= split_on(s@.subrange(0, 0), sep));
    while i < s.len()
        invariant
            i <= s@.len(),
            views(toks@).push(cur@) == split_on(s@.subrange(0, i as int), sep),
        decreases s.len() - i,
    {
        let c = s[i];
        let ghost sub = s@.subrange(0, i + 1);
        assert(sub.drop_last() =~= s@.subrange(0, i as int));
        proof {
            lemma_split_on_nonempty(s@.subrange(0, i as int), sep);
        }
        if c == sep {
            toks.push(cur);
            cur = Vec::new();
            assert(views(toks@).push(cur@) =~= split_on(sub, sep));
        } else {
            let ghost old_toks = toks@;
            cur.push(c);
            assert(views(toks@).push(cur@) =~= split_on(sub, sep));
        }
        i = i + 1;
    }
    assert(s@.subrange(0, s@.len() as int) =~= s@);
    toks.push(cur);
    assert(views(toks@) =~= split_on(s@, sep));
    toks
}


/// The value of the decimal digits `s`.
pub open spec fn digits_value(s: Seq<char>) -> int
    decreases s.len(),
{
    if s.len() == 0 {
        0
    } else {
        digits_value(s.drop_last()) * 10 + (s.last() as int - '0' as int)
    }
}

/// Whether every character of `s` is an ASCII digit.
pub open spec fn all_digits(s: Seq<char>) -> bool {
    forall|i: int| 0 <= i < s.len() ==> '0' <= #[trigger] s[i] && s[i] <= '9'
}

/// The number `s` spells as `from_str` of an unsigned integer type with
/// largest value `max` reads it: an optional `+`, then one digit or more,
/// at most `max`.
pub open spec fn spec_parse_decimal(s: Seq<char>, max: int) -> Option<int> {
    let d = if s.len() > 0 && s[0] == '+' { s.drop_first() } else { s };
    if d.len() > 0 && all_digits(d) && digits_value(d) <= max {
        Some(digits_value(d))
    } else {
        None
    }
}

/// A run of digits is worth nothing negative.
proof fn lemma_digits_nonneg(s: Seq<char>, i: int)
    requires
        0 <= i <= s.len(),
        all_digits(s),
    ensures
        0 <= digits_value(s.subrange(0, i)),
    decreases i,
{
    if i > 0 {
        lemma_digits_nonneg(s, i - 1);
        assert(s.subrange(0, i).drop_last() =~= s.subrange(0, i - 1));
        assert('0' <= s[i - 1]);
    }
}

/// A longer run of digits is worth at least as much.
proof fn lemma_digits_grow(s: Seq<char>, i: int, j: int)
    requires
        0 <= i <= j <= s.len(),
        all_digits(s),
    ensures
        digits_value(s.subrange(0, i)) <= digits_value(s.subrange(0, j)),
    decreases j - i,
{
    if i < j {
        lemma_digits_grow(s, i, j - 1);
        lemma_digits_nonneg(s, j - 1);
        assert(s.subrange(0, j).drop_last() =~= s.subrange(0, j - 1));
        assert('0' <= s[j - 1]);
    }
}

/// Reads a number as `from_str` of an unsigned integer type with largest
/// value `max` does (see `spec_parse_decimal`).
pub fn parse_decimal(s: &Vec<char>, max: u64) -> (r: Option<u64>)
    ensures
        r matches Some(v) ==> spec_parse_decimal(s@, max as int) == Some(v as int),
        r is None ==> spec_parse_decimal(s@, max as int) is None,
{
    let start: usize = if s.len() > 0 && s[0] == '+' { 1 } else { 0 };
    let ghost d = if s@.len() > 0 && s@[0] == '+' { s@.drop_first() } else { s@ };
    assert(d =~= s@.subrange(start as int, s@.len() as int));
    if start >= s.len() {
        return None;
    }
    let mut i: usize = start;
    let mut v: u64 = 0;
    while i < s.len()
        invariant
            start <= i <= s@.len(),
            start < s@.len(),
            d == (if s@.len() > 0 && s@[0] == '+' { s@.drop_first() } else { s@ }),
            d =~= s@.subrange(start as int, s@.len() as int),
            all_digits(d.subrange(0, i - start)),
            v as int == digits_value(d.subrange(0, i - start)),
            v <= max,
        decreases s.len() - i,
    {
        let c = s[i];
        if !('0' <= c && c <= '9') {
            assert(d[i - start] == c);
            return None;
        }
        let dv = (c as u32 - '0' as u32) as u64;
        let ghost p = i + 1 - start;
        proof {
            assert(d.subrange(0, p).drop_last() =~= d.subrange(0, i - start));
            assert(d.subrange(0, p).last() == c);
            assert(digits_value(d.subrange(0, p)) == v * 10 + dv);
            assert(all_digits(d.subrange(0, p))) by {
                assert forall|k: int| 0 <= k < p implies '0' <= #[trigger] d.subrange(0, p)[k] && d.subrange(0, p)[k] <= '9' by {
                    if k < p - 1 {
                        assert(d.subrange(0, p)[k] == d.subrange(0, i - start)[k]);
                    }
                }
            }
        }
        let next = match v.checked_mul(10) {
            Some(m) => m.checked_add(dv),
            None => None,
        };
        match next {
            Some(nv) => {
                if nv > max {
                    proof {
                        if all_digits(d) {
                            lemma_digits_grow(d, p, d.len() as int);
                            assert(d.subrange(0, d.len() as int) =~= d);
                        }
                    }
                    return None;
                }
                v = nv;
            },
            None => {
                proof {
                    if all_digits(d) {
                        lemma_digits_grow(d, p, d.len() as int);
                        assert(d.subrange(0, d.len() as int) =~= d);
                    }
                }
                return None;
            },
        }
        i = i + 1;
    }
    assert(d.subrange(0, d.len() as int) =~= d);
    Some(v)
}


} // verus!
