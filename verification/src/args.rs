//! Track preferences given on the command line: a case-insensitive regular expression
//! and the score that a matching track gains.

use vstd::prelude::*;
use crate::text::{chars_of, decimal_value, is_digit, string_of};

verus! {

#[verifier::external_type_specification]
#[verifier::external_body]
pub struct ExRegex(regex::Regex);

#[verifier::external_type_specification]
#[verifier::external_body]
pub struct ExRegexError(regex::Error);

#[verifier::external_type_specification]
#[verifier::external_body]
pub struct ExParseIntError(std::num::ParseIntError);

/// `Clone` of `regex::Regex`, used by the derived `Clone` of `TrackBuff`. Nothing is stated of
/// the copy: Verus sees a compiled expression as opaque.
pub assume_specification[ <regex::Regex as std::clone::Clone>::clone ](r: &regex::Regex) -> regex::Regex;

/// Whether `pattern` compiles as a case-insensitive regular expression of the `regex` crate.
pub uninterp spec fn ci_regex_compiles(pattern: Seq<char>) -> bool;

/// Whether the case-insensitive regular expression `pattern` matches somewhere in `text`.
pub uninterp spec fn ci_regex_is_match(pattern: Seq<char>, text: Seq<char>) -> bool;

/// Calls `regex::RegexBuilder::new(pattern)`, `case_insensitive(true)` and `build()`.
/// Trusted: compilation succeeds exactly when the named `ci_regex_compiles` holds of `pattern`.
#[verifier::external_body]
fn build_case_insensitive(pattern: &str) -> (r: Result<regex::Regex, regex::Error>)
    ensures
        r is Ok <==> ci_regex_compiles(pattern@),
{
    regex::RegexBuilder::new(pattern).case_insensitive(true).build()
}

/// Why a track preference could not be read.
#[derive(Debug)]
pub enum InvalidBuffError {
    /// There is no `:` between the expression and the score.
    Format,
    /// The score is not an `i16`.
    Buff(std::num::ParseIntError),
    /// The expression does not compile.
    Regex(regex::Error),
}

/// A track preference: tracks whose field matches the expression gain `value`.
#[derive(Debug, Clone)]
pub struct TrackBuff {
    pattern: String,
    regex: regex::Regex,
    pub value: i16,
}

/// Whether every character of `s` is a decimal digit.
pub open spec fn all_digits(s: Seq<char>) -> bool {
    forall|i: int| 0 <= i < s.len() ==> is_digit(#[trigger] s[i])
}

/// The number that `s` writes as an optional sign followed by at least one decimal digit.
pub open spec fn signed_decimal(s: Seq<char>) -> Option<int> {
    if s.len() > 0 && (s[0] == '+' || s[0] == '-') {
        let d = s.drop_first();
        if d.len() > 0 && all_digits(d) {
            Some(if s[0] == '-' { -decimal_value(d) } else { decimal_value(d) })
        } else {
            None
        }
    } else if s.len() > 0 && all_digits(s) {
        Some(decimal_value(s))
    } else {
        None
    }
}

/// The `i16` that `s` writes, as `str::parse::<i16>` reads it.
pub open spec fn i16_of(s: Seq<char>) -> Option<i16> {
    match signed_decimal(s) {
        Some(v) => if i16::MIN <= v && v <= i16::MAX {
            Some(v as i16)
        } else {
            None
        },
        None => None,
    }
}

/// Calls `str::parse::<i16>`.
/// Trusted: as the standard library documents, the text must be an optional `+` or `-`
/// followed by decimal digits only, and the value must fit in `i16`; otherwise it is an error.
#[verifier::external_body]
fn parse_i16(s: &str) -> (r: Result<i16, std::num::ParseIntError>)
    ensures
        match i16_of(s@) {
            Some(v) => r matches Ok(x) && x == v,
            None => r is Err,
        },
{
    s.parse::<i16>()
}

/// The text before the first `:` (all of it when there is none).
pub open spec fn first_segment(s: Seq<char>) -> Seq<char>
    decreases s.len(),
{
    if s.len() == 0 || s[0] == ':' {
        Seq::empty()
    } else {
        seq![s[0]] + first_segment(s.drop_first())
    }
}

/// The text after the first `:`, if there is one.
pub open spec fn after_colon(s: Seq<char>) -> Option<Seq<char>>
    decreases s.len(),
{
    if s.len() == 0 {
        None
    } else if s[0] == ':' {
        Some(s.drop_first())
    } else {
        after_colon(s.drop_first())
    }
}

/// The second `:`-separated field of `s`, if there is one.
pub open spec fn second_segment(s: Seq<char>) -> Option<Seq<char>> {
    match after_colon(s) {
        Some(rest) => Some(first_segment(rest)),
        None => None,
    }
}

/// Whether `s` has no `:`.
pub open spec fn no_colon(s: Seq<char>) -> bool {
    forall|i: int| 0 <= i < s.len() ==> #[trigger] s[i] != ':'
}

/// The first field of a text without `:` is all of it, and it has no second field.
proof fn lemma_segments_without_colon(s: Seq<char>)
    requires
        no_colon(s),
    ensures
        first_segment(s) == s,
        after_colon(s) is None,
    decreases s.len(),
{
    if s.len() > 0 {
        assert(no_colon(s.drop_first())) by {
            assert forall|i: int| 0 <= i < s.drop_first().len() implies #[trigger] s.drop_first()[i]
                != ':' by {
                assert(s.drop_first()[i] == s[i + 1]);
            }
        }
        lemma_segments_without_colon(s.drop_first());
        assert(s =~= seq![s[0]] + s.drop_first());
    }
}

/// The fields of an expression written before a `:` and a text.
proof fn lemma_segments_split(p: Seq<char>, rest: Seq<char>)
    requires
        no_colon(p),
    ensures
        first_segment(p + seq![':'] + rest) == p,
        after_colon(p + seq![':'] + rest) == Some(rest),
    decreases p.len(),
{
    let s = p + seq![':'] + rest;
    if p.len() == 0 {
        assert(s =~= seq![':'] + rest);
        assert(s.drop_first() =~= rest);
    } else {
        assert(no_colon(p.drop_first())) by {
            assert forall|i: int| 0 <= i < p.drop_first().len() implies #[trigger] p.drop_first()[i]
                != ':' by {
                assert(p.drop_first()[i] == p[i + 1]);
            }
        }
        lemma_segments_split(p.drop_first(), rest);
        assert(s.drop_first() =~= p.drop_first() + seq![':'] + rest);
        assert(s[0] == p[0]);
        assert(p =~= seq![p[0]] + p.drop_first());
    }
}

/// Law of the preferences as written: a preference written as an expression without `:`,
/// a `:`, and a score without `:` reads back that expression and the score's field.
pub proof fn lemma_preference_fields(pattern: Seq<char>, score: Seq<char>)
    requires
        no_colon(pattern),
        no_colon(score),
    ensures
        first_segment(pattern + seq![':'] + score) == pattern,
        second_segment(pattern + seq![':'] + score) == Some(score),
{
    lemma_segments_split(pattern, score);
    lemma_segments_without_colon(score);
}

/// Splits `chars` at the first `:`: the characters before it, and the index just after it.
fn split_first_colon(chars: &Vec<char>, from: usize) -> (r: (Vec<char>, Option<usize>))
    requires
        from <= chars@.len(),
    ensures
        r.0@ == first_segment(chars@.skip(from as int)),
        match r.1 {
            Some(j) => j <= chars@.len() && after_colon(chars@.skip(from as int)) == Some(
                chars@.skip(j as int),
            ),
            None => after_colon(chars@.skip(from as int)) is None,
        },
{
    let mut acc: Vec<char> = Vec::new();
    let mut i = from;
    while i < chars.len()
        invariant
            from <= i <= chars@.len(),
            first_segment(chars@.skip(from as int)) == acc@ + first_segment(
                chars@.skip(i as int),
            ),
            after_colon(chars@.skip(from as int)) == after_colon(chars@.skip(i as int)),
        decreases chars@.len() - i,
    {
        proof {
            assert(chars@.skip(i as int)[0] == chars@[i as int]);
            assert(chars@.skip(i as int).drop_first() =~= chars@.skip(i + 1));
        }
        if chars[i] == ':' {
            proof {
                assert(acc@ + Seq::<char>::empty() =~= acc@);
            }
            return (acc, Some(i + 1));
        }
        let ghost before = acc@;
        acc.push(chars[i]);
        proof {
            assert(before + first_segment(chars@.skip(i as int)) =~= acc@ + first_segment(
                chars@.skip(i + 1),
            ));
        }
        i = i + 1;
    }
    proof {
        assert(acc@ + Seq::<char>::empty() =~= acc@);
    }
    (acc, None)
}

impl TrackBuff {
    /// The score that a matching track gains.
    pub closed spec fn score(&self) -> i16 {
        self.value
    }

    /// The text of the expression.
    pub closed spec fn pattern_text(&self) -> Seq<char> {
        self.pattern@
    }

    /// Compiles `pattern` case-insensitively into a preference worth `value`.
    pub fn new(pattern: &str, value: i16) -> (r: Result<TrackBuff, InvalidBuffError>)
        ensures
            match r {
                Ok(b) => ci_regex_compiles(pattern@) && b.pattern_text() == pattern@ && b.score()
                    == value,
                Err(e) => !ci_regex_compiles(pattern@) && e is Regex,
            },
    {
        match build_case_insensitive(pattern) {
            Ok(regex) => Ok(TrackBuff { pattern: string_of(chars_of(pattern).as_slice()), regex, value }),
            Err(e) => Err(InvalidBuffError::Regex(e)),
        }
    }

    /// The score that a matching track gains.
    pub fn value(&self) -> (r: i16)
        ensures
            r == self.score(),
    {
        self.value
    }

    /// The text of the expression.
    pub fn pattern(&self) -> (r: &str)
        ensures
            r@ == self.pattern_text(),
    {
        self.pattern.as_str()
    }

    /// Calls `regex::Regex::is_match` on the compiled expression.
    /// Trusted: the expression was compiled case-insensitively from `pattern` (the only way a
    /// `TrackBuff` is made), so the result is the named `ci_regex_is_match` of the two texts.
    #[verifier::external_body]
    pub(crate) fn is_match(&self, text: &str) -> (r: bool)
        ensures
            r == ci_regex_is_match(self.pattern_text(), text@),
    {
        self.regex.is_match(text)
    }

    /// Reads a preference written `expression:score`. The expression is compiled first; a
    /// missing `:` and a bad score are reported after it; text after a second `:` is ignored.
    pub fn parse(s: &str) -> (r: Result<TrackBuff, InvalidBuffError>)
        ensures
            !ci_regex_compiles(first_segment(s@)) ==> r matches Err(InvalidBuffError::Regex(_)),
            ci_regex_compiles(first_segment(s@)) ==> match second_segment(s@) {
                None => r matches Err(InvalidBuffError::Format),
                Some(score) => match i16_of(score) {
                    None => r matches Err(InvalidBuffError::Buff(_)),
                    Some(v) => r matches Ok(b) && b.pattern_text() == first_segment(s@)
                        && b.score() == v,
                },
            },
    {
        let chars = chars_of(s);
        proof {
            assert(chars@.skip(0) =~= s@);
        }
        let (first, rest) = split_first_colon(&chars, 0);
        let pattern = string_of(first.as_slice());
        let regex = match build_case_insensitive(pattern.as_str()) {
            Ok(regex) => regex,
            Err(e) => {
                return Err(InvalidBuffError::Regex(e));
            },
        };
        let j = match rest {
            Some(j) => j,
            None => {
                return Err(InvalidBuffError::Format);
            },
        };
        let (second, _) = split_first_colon(&chars, j);
        let score = string_of(second.as_slice());
        match parse_i16(score.as_str()) {
            Ok(value) => Ok(TrackBuff { pattern, regex, value }),
            Err(e) => Err(InvalidBuffError::Buff(e)),
        }
    }
}

impl std::str::FromStr for TrackBuff {
    type Err = InvalidBuffError;

    /// Reads a preference as `TrackBuff::parse` does.
    fn from_str(s: &str) -> (r: Result<TrackBuff, InvalidBuffError>)
        ensures
            !ci_regex_compiles(first_segment(s@)) ==> r matches Err(InvalidBuffError::Regex(_)),
            ci_regex_compiles(first_segment(s@)) ==> match second_segment(s@) {
                None => r matches Err(InvalidBuffError::Format),
                Some(score) => match i16_of(score) {
                    None => r matches Err(InvalidBuffError::Buff(_)),
                    Some(v) => r matches Ok(b) && b.pattern_text() == first_segment(s@)
                        && b.score() == v,
                },
            },
    {
        TrackBuff::parse(s)
    }
}

} // verus!
