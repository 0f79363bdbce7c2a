//! Character-level helpers shared by the naming rules: decimal rendering,
//! ASCII case folding and the standard library's Unicode case mappings.

use vstd::prelude::*;

verus! {

/// The character of a decimal digit `d` (`0 <= d < 10`).
pub open spec fn digit_char(d: int) -> char {
    (d + 48) as char
}

/// Whether `c` is one of `'0'..='9'`.
pub open spec fn is_digit(c: char) -> bool {
    '0' <= c && c <= '9'
}

/// The numeric value of a digit character.
pub open spec fn digit_value(c: char) -> int {
    c as int - 48
}

/// The decimal rendering of `n`, without leading zeros, as `{}` formats it.
pub open spec fn decimal(n: nat) -> Seq<char>
    decreases n,
{
    if n < 10 {
        seq![digit_char(n as int)]
    } else {
        decimal(n / 10).push(digit_char((n % 10) as int))
    }
}

/// Appends the decimal rendering of `n` to `out`.
pub fn push_decimal(n: u64, out: &mut Vec<char>)
    ensures
        final(out)@ == old(out)@ + decimal(n as nat),
    decreases n,
{
    if n >= 10 {
        push_decimal(n / 10, out);
    }
    let d: u8 = (n % 10) as u8;
    out.push((d + 48) as char);
    proof {
        assert(old(out)@ + decimal(n as nat) =~= old(out)@ + (if n >= 10 { decimal((n / 10) as nat) } else { seq![] }).push(digit_char((n % 10) as int)));
    }
}


/// ASCII upper-casing: `'a'..='z'` to `'A'..='Z'`, every other character unchanged.
pub open spec fn ascii_upper(c: char) -> char {
    if 'a' <= c && c <= 'z' {
        (c as int - 32) as char
    } else {
        c
    }
}

/// ASCII lower-casing: `'A'..='Z'` to `'a'..='z'`, every other character unchanged.
pub open spec fn ascii_lower(c: char) -> char {
    if 'A' <= c && c <= 'Z' {
        (c as int + 32) as char
    } else {
        c
    }
}

/// Whether `c` is an ASCII character.
pub open spec fn is_ascii_char(c: char) -> bool {
    (c as int) < 128
}

/// The characters that `char::to_uppercase` yields for `c` (Unicode data).
pub uninterp spec fn upper_mapping(c: char) -> Seq<char>;

/// The characters that `char::to_lowercase` yields for `c` (Unicode data).
pub uninterp spec fn lower_mapping(c: char) -> Seq<char>;

/// The upper-case mapping of `c`: the ASCII rule for ASCII characters, the Unicode data else.
pub open spec fn upper_chars(c: char) -> Seq<char> {
    if is_ascii_char(c) {
        seq![ascii_upper(c)]
    } else {
        upper_mapping(c)
    }
}

/// The lower-case mapping of `c`: the ASCII rule for ASCII characters, the Unicode data else.
pub open spec fn lower_chars(c: char) -> Seq<char> {
    if is_ascii_char(c) {
        seq![ascii_lower(c)]
    } else {
        lower_mapping(c)
    }
}

/// Whether `c` has the Unicode `White_Space` property, which `char::is_whitespace` reports:
/// `'\t'..='\r'`, the space, U+0085, U+00A0, U+1680, U+2000 to U+200A, U+2028, U+2029,
/// U+202F, U+205F and U+3000.
pub open spec fn is_white_space(c: char) -> bool {
    ||| '\t' <= c && c <= '\r'
    ||| c == ' '
    ||| c == '\u{85}'
    ||| c == '\u{a0}'
    ||| c == '\u{1680}'
    ||| '\u{2000}' <= c && c <= '\u{200a}'
    ||| c == '\u{2028}'
    ||| c == '\u{2029}'
    ||| c == '\u{202f}'
    ||| c == '\u{205f}'
    ||| c == '\u{3000}'
}

/// Calls `char::to_uppercase` and collects what it yields.
/// Trusted: on ASCII characters the result is the single character `ascii_upper(c)`; on
/// other characters it is their Unicode upper-case mapping, named `upper_mapping`, which the
/// documentation says is one or more characters.
#[verifier::external_body]
pub(crate) fn to_uppercase_chars(c: char) -> (r: Vec<char>)
    ensures
        r@ == if is_ascii_char(c) {
            seq![ascii_upper(c)]
        } else {
            upper_mapping(c)
        },
        r@.len() >= 1,
{
    c.to_uppercase().collect()
}

/// Calls `char::to_lowercase` and collects what it yields.
/// Trusted: on ASCII characters the result is the single character `ascii_lower(c)`; on
/// other characters it is their Unicode lower-case mapping, named `lower_mapping`, which the
/// documentation says is one or more characters.
#[verifier::external_body]
pub(crate) fn to_lowercase_chars(c: char) -> (r: Vec<char>)
    ensures
        r@ == if is_ascii_char(c) {
            seq![ascii_lower(c)]
        } else {
            lower_mapping(c)
        },
        r@.len() >= 1,
{
    c.to_lowercase().collect()
}

/// `char::is_whitespace`: whether `c` has the Unicode `White_Space` property.
pub(crate) fn is_whitespace_char(c: char) -> (r: bool)
    ensures
        r == is_white_space(c),
{
    ('\t' <= c && c <= '\r') || c == ' ' || c == '\u{85}' || c == '\u{a0}' || c == '\u{1680}'
        || ('\u{2000}' <= c && c <= '\u{200a}') || c == '\u{2028}' || c == '\u{2029}'
        || c == '\u{202f}' || c == '\u{205f}' || c == '\u{3000}'
}

/// Collects the characters of `s` (`str::chars`).
/// Trusted: the vector holds exactly the characters of `s`, in order.
#[verifier::external_body]
pub(crate) fn chars_of(s: &str) -> (r: Vec<char>)
    ensures
        r@ == s@,
{
    s.chars().collect()
}

/// Builds a `String` from characters (`FromIterator<char>` for `String`).
/// Trusted: the string holds exactly the given characters, in order.
#[verifier::external_body]
pub(crate) fn string_of(v: &[char]) -> (r: String)
    ensures
        r@ == v@,
{
    v.iter().collect()
}

/// Number of bytes that `c` takes in UTF-8.
pub open spec fn utf8_width(c: char) -> int {
    if (c as int) < 0x80 {
        1
    } else if (c as int) < 0x800 {
        2
    } else if (c as int) < 0x10000 {
        3
    } else {
        4
    }
}

/// Number of bytes that `c` takes in UTF-8.
pub fn char_utf8_width(c: char) -> (w: u8)
    ensures
        w as int == utf8_width(c),
{
    let u = c as u32;
    if u < 0x80 {
        1
    } else if u < 0x800 {
        2
    } else if u < 0x10000 {
        3
    } else {
        4
    }
}

/// The index from which the characters of `s` take exactly `n` bytes in UTF-8,
/// if the byte offset `n` from the end falls on a character boundary.
pub open spec fn byte_tail_start(s: Seq<char>, n: int) -> Option<int>
    decreases s.len(),
{
    if n == 0 {
        Some(s.len() as int)
    } else if s.len() == 0 || n < 0 {
        None
    } else if utf8_width(s.last()) > n {
        None
    } else {
        byte_tail_start(s.drop_last(), n - utf8_width(s.last()))
    }
}

/// The index found is within the text.
pub proof fn lemma_byte_tail_start_bounds(s: Seq<char>, n: int)
    ensures
        byte_tail_start(s, n) matches Some(k) ==> 0 <= k <= s.len(),
    decreases s.len(),
{
    if n != 0 && s.len() > 0 && n >= 0 && utf8_width(s.last()) <= n {
        lemma_byte_tail_start_bounds(s.drop_last(), n - utf8_width(s.last()));
    }
}

/// Finds the index from which the characters of `s` take exactly `n` bytes.
pub fn find_byte_tail_start(s: &Vec<char>, n: u8) -> (r: Option<usize>)
    ensures
        match r {
            Some(k) => byte_tail_start(s@, n as int) == Some(k as int) && k <= s@.len(),
            None => byte_tail_start(s@, n as int) is None,
        },
{
    let mut k = s.len();
    let mut need = n;
    proof {
        assert(s@.take(k as int) =~= s@);
    }
    while need > 0
        invariant
            k <= s@.len(),
            byte_tail_start(s@, n as int) == byte_tail_start(s@.take(k as int), need as int),
        decreases k,
    {
        if k == 0 {
            return None;
        }
        let w = char_utf8_width(s[k - 1]);
        if w > need {
            return None;
        }
        proof {
            assert(s@.take(k as int).drop_last() =~= s@.take(k - 1));
        }
        need = need - w;
        k = k - 1;
    }
    proof {
        assert(s@.take(k as int).len() == k);
    }
    Some(k)
}

} // verus!

verus! {

/// Whether `a` and `b` hold the same characters.
pub fn same_text(a: &str, b: &str) -> (r: bool)
    ensures
        r == (a@ == b@),
{
    let x = chars_of(a);
    let y = chars_of(b);
    if x.len() != y.len() {
        return false;
    }
    let mut i: usize = 0;
    while i < x.len()
        invariant
            x@ == a@,
            y@ == b@,
            x@.len() == y@.len(),
            i <= x@.len(),
            forall|j: int| 0 <= j < i ==> x@[j] == y@[j],
        decreases x@.len() - i,
    {
        if x[i] != y[i] {
            return false;
        }
        i = i + 1;
    }
    proof {
        assert(x@ =~= y@);
    }
    true
}

/// The characters of an optional text.
pub open spec fn opt_text(o: Option<&str>) -> Option<Seq<char>> {
    match o {
        Some(s) => Some(s@),
        None => None,
    }
}

/// The characters of an optional owned text.
pub open spec fn opt_string(o: Option<String>) -> Option<Seq<char>> {
    match o {
        Some(s) => Some(s@),
        None => None,
    }
}

/// Whether `a` and `b` are equal when ASCII letters are compared without case.
pub open spec fn eq_ignore_ascii_case(a: Seq<char>, b: Seq<char>) -> bool {
    a.len() == b.len() && forall|i: int| 0 <= i < a.len() ==> ascii_lower(#[trigger] a[i])
        == ascii_lower(b[i])
}

/// ASCII lower-casing of one character.
pub fn to_ascii_lower(c: char) -> (r: char)
    ensures
        r == ascii_lower(c),
{
    if 'A' <= c && c <= 'Z' {
        let b: u8 = c as u8;
        (b + 32) as char
    } else {
        c
    }
}

/// Whether `a` and `b` are equal when ASCII letters are compared without case.
pub fn same_text_ignore_ascii_case(a: &str, b: &str) -> (r: bool)
    ensures
        r == eq_ignore_ascii_case(a@, b@),
{
    let x = chars_of(a);
    let y = chars_of(b);
    if x.len() != y.len() {
        return false;
    }
    let mut i: usize = 0;
    while i < x.len()
        invariant
            x@ == a@,
            y@ == b@,
            x@.len() == y@.len(),
            i <= x@.len(),
            forall|j: int| 0 <= j < i ==> ascii_lower(#[trigger] x@[j]) == ascii_lower(y@[j]),
        decreases x@.len() - i,
    {
        if to_ascii_lower(x[i]) != to_ascii_lower(y[i]) {
            return false;
        }
        i = i + 1;
    }
    true
}

/// The decimal rendering of a number is made of digits only.
pub proof fn lemma_decimal_digits(n: nat)
    ensures
        decimal(n).len() > 0,
        forall|i: int| 0 <= i < decimal(n).len() ==> is_digit(#[trigger] decimal(n)[i]),
    decreases n,
{
    if n >= 10 {
        lemma_decimal_digits(n / 10);
    }
}

/// The number that the decimal digits `s` write (the most significant first).
pub open spec fn decimal_value(s: Seq<char>) -> int
    decreases s.len(),
{
    if s.len() == 0 {
        0
    } else {
        10 * decimal_value(s.drop_last()) + digit_value(s.last())
    }
}

/// Law of the decimal rendering: reading back the digits written for `n` gives `n`.
pub proof fn lemma_decimal_reads_back(n: nat)
    ensures
        decimal_value(decimal(n)) == n,
    decreases n,
{
    let d = (n % 10) as int;
    assert(((d + 48) as char) as int == d + 48);
    assert(digit_value(digit_char(d)) == d);
    if n < 10 {
        assert(decimal(n).drop_last() =~= Seq::<char>::empty());
        assert(decimal(n).last() == digit_char(n as int));
        assert(decimal_value(decimal(n)) == 10 * decimal_value(decimal(n).drop_last()) + digit_value(decimal(n).last()));
    } else {
        lemma_decimal_reads_back(n / 10);
        assert(decimal(n).drop_last() =~= decimal(n / 10));
        assert(decimal(n).last() == digit_char(d));
        assert(decimal_value(decimal(n)) == 10 * decimal_value(decimal(n).drop_last()) + digit_value(decimal(n).last()));
    }
}

/// The number that digits write is not negative, and no smaller than what a prefix of them
/// writes.
pub proof fn lemma_decimal_value_prefix(s: Seq<char>, j: int)
    requires
        forall|i: int| 0 <= i < s.len() ==> is_digit(#[trigger] s[i]),
        0 <= j <= s.len(),
    ensures
        0 <= decimal_value(s.take(j)) <= decimal_value(s),
    decreases s.len(),
{
    if s.len() > 0 {
        let p = s.drop_last();
        assert forall|i: int| 0 <= i < p.len() implies is_digit(#[trigger] p[i]) by {
            assert(p[i] == s[i]);
        }
        assert(is_digit(s[s.len() - 1]));
        if j == s.len() {
            assert(s.take(j) =~= s);
            lemma_decimal_value_prefix(p, 0);
        } else {
            lemma_decimal_value_prefix(p, j);
            assert(p.take(j) =~= s.take(j));
        }
    } else {
        assert(s.take(j) =~= s);
    }
}

} // verus!
