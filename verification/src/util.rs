//! Naming rules for the files that come out, what the scan does with an entry, and language
//! identification.

use vstd::prelude::*;
use chrono::Datelike;
use crate::text::{
    ascii_lower, ascii_upper, byte_tail_start, chars_of, decimal, decimal_value, digit_value,
    find_byte_tail_start, is_ascii_char, is_digit, lemma_byte_tail_start_bounds,
    lemma_decimal_digits, lemma_decimal_reads_back, lower_chars, push_decimal, string_of,
    to_lowercase_chars, to_uppercase_chars, upper_chars, utf8_width,
};

verus! {

#[verifier::external_type_specification]
#[verifier::external_body]
pub struct ExFmtError(std::fmt::Error);

/// Makes the value of the unit struct `std::fmt::Error`; nothing needs to be stated of it.
#[verifier::external_body]
pub(crate) fn fmt_error() -> std::fmt::Error {
    std::fmt::Error
}

#[verifier::external_type_specification]
#[verifier::external_body]
pub struct ExSystemTime(std::time::SystemTime);

/// `std::time::SystemTime::now`: reads the system clock. Nothing is stated of the result.
#[verifier::external_body]
fn system_time_now() -> std::time::SystemTime {
    std::time::SystemTime::now()
}

/// `SystemTime::duration_since(UNIX_EPOCH)`, with its error (a time before the epoch)
/// turned into `None`. Nothing is stated of the result: `t` is opaque here.
#[verifier::external_body]
fn duration_since_unix_epoch(t: &std::time::SystemTime) -> Option<std::time::Duration> {
    t.duration_since(std::time::UNIX_EPOCH).ok()
}

/// `Duration::as_secs`: the whole seconds of `d`. Nothing is stated of the result: a
/// `Duration` is opaque here.
#[verifier::external_body]
fn duration_as_secs(d: &std::time::Duration) -> u64 {
    d.as_secs()
}

/// `Duration::subsec_nanos`. Trusted: as its documentation says, the result is the
/// fractional part of a second in nanoseconds, so it is below one billion.
#[verifier::external_body]
fn duration_subsec_nanos(d: &std::time::Duration) -> (r: u32)
    ensures
        r < 1_000_000_000,
{
    d.subsec_nanos()
}

/// The UTC calendar year of the instant `secs` seconds and `nanos` nanoseconds after the
/// Unix epoch, or `None` where `chrono` cannot represent that instant.
pub uninterp spec fn utc_year(secs: i64, nanos: u32) -> Option<i32>;

/// Calls `chrono::DateTime::from_timestamp` (which returns `None` out of its range instead
/// of panicking) and `Datelike::year` on the result.
/// Trusted: the result is the named `utc_year` of the arguments.
#[verifier::external_body]
fn year_of_timestamp(secs: i64, nanos: u32) -> (r: Option<i32>)
    ensures
        r == utc_year(secs, nanos),
{
    match chrono::DateTime::from_timestamp(secs, nanos) {
        Some(t) => Some(t.year()),
        None => None,
    }
}

/// What reading the year from the clock can give: nothing, or the UTC year of some instant
/// at or after the Unix epoch.
pub open spec fn clock_year(year: Option<i32>) -> bool {
    year is None || exists|secs: i64, nanos: u32|
        0 <= secs && nanos < 1_000_000_000 && #[trigger] utc_year(secs, nanos) == year
}

/// Reads the current UTC year from the system clock; `None` where the clock is before the
/// Unix epoch or out of `chrono`'s range.
pub(crate) fn current_year() -> (r: Option<i32>)
    ensures
        clock_year(r),
{
    let now = system_time_now();
    match duration_since_unix_epoch(&now) {
        None => None,
        Some(d) => {
            let secs = duration_as_secs(&d);
            let nanos = duration_subsec_nanos(&d);
            if secs > 0x7fff_ffff_ffff_ffff {
                None
            } else {
                year_of_timestamp(secs as i64, nanos)
            }
        },
    }
}

/// State of the pretty-name scan: the text written so far, the year being read,
/// the number of digits seen since the last separator and whether the last thing written
/// was a separator.
pub struct NameScan {
    pub out: Seq<char>,
    pub year: int,
    pub digits: int,
    pub whitespace: bool,
}

/// Outcome of checking for a completed year.
pub enum YearClose {
    /// No meaningful four-digit year is pending.
    Open,
    /// The year was closed; the name is complete.
    Closed(Seq<char>),
    /// The four bytes before the end do not start on a character boundary, so the text
    /// before the year cannot be cut there.
    Broken,
}

/// Outcome of one character of the scan.
pub enum NameStep {
    Next(NameScan),
    Stop(Seq<char>),
    Panic,
}

/// Separators that become a single space.
pub open spec fn is_name_separator(c: char) -> bool {
    c == '_' || c == '.' || c == ' '
}

/// Closes a four-digit year between 1900 and `year_now`: the four bytes before the end are
/// replaced by the year in brackets, unless the year already follows an opening bracket,
/// in which case only the closing bracket is added.
pub open spec fn close_year(out: Seq<char>, digits: int, year: int, year_now: int) -> YearClose {
    if digits == 4 && 1900 <= year && year <= year_now {
        match byte_tail_start(out, 4) {
            None => YearClose::Broken,
            Some(k) => if k > 0 && out[k - 1] == '(' {
                YearClose::Closed(out.push(')'))
            } else {
                YearClose::Closed(out.take(k) + seq!['('] + decimal(year as nat) + seq![')'])
            },
        }
    } else {
        YearClose::Open
    }
}

/// One character of the scan.
pub open spec fn name_step(st: NameScan, c: char, year_now: int) -> NameStep {
    if is_digit(c) {
        if st.digits >= 255 {
            NameStep::Panic
        } else {
            NameStep::Next(
                NameScan {
                    out: st.out.push(c),
                    year: if st.digits < 4 { 10 * st.year + digit_value(c) } else { st.year },
                    digits: st.digits + 1,
                    whitespace: false,
                },
            )
        }
    } else {
        match close_year(st.out, st.digits, st.year, year_now) {
            YearClose::Broken => NameStep::Panic,
            YearClose::Closed(o) => NameStep::Stop(o),
            YearClose::Open => if is_name_separator(c) {
                NameStep::Next(
                    NameScan {
                        out: if st.whitespace { st.out } else { st.out.push(' ') },
                        year: 0,
                        digits: 0,
                        whitespace: true,
                    },
                )
            } else if st.whitespace {
                NameStep::Next(
                    NameScan {
                        out: st.out + upper_chars(c),
                        year: st.year,
                        digits: st.digits,
                        whitespace: false,
                    },
                )
            } else {
                NameStep::Next(
                    NameScan {
                        out: st.out + lower_chars(c),
                        year: st.year,
                        digits: st.digits,
                        whitespace: false,
                    },
                )
            },
        }
    }
}

/// The scan over the characters `rest` from state `st`; `None` where it cannot proceed: a
/// 256th digit with no separator between them (the digit count is a `u8`), or a year that
/// cannot be cut off.
pub open spec fn name_scan(rest: Seq<char>, st: NameScan, year_now: int) -> Option<Seq<char>>
    decreases rest.len(),
{
    if rest.len() == 0 {
        match close_year(st.out, st.digits, st.year, year_now) {
            YearClose::Broken => None,
            YearClose::Closed(o) => Some(o),
            YearClose::Open => Some(st.out),
        }
    } else {
        match name_step(st, rest[0], year_now) {
            NameStep::Panic => None,
            NameStep::Stop(o) => Some(o),
            NameStep::Next(s) => name_scan(rest.drop_first(), s, year_now),
        }
    }
}

/// The initial state: nothing written, as if after a separator.
pub open spec fn name_scan_start() -> NameScan {
    NameScan { out: Seq::empty(), year: 0, digits: 0, whitespace: true }
}

/// The pretty name of `src` when the current year is `year_now`: words separated by single
/// spaces (for `_`, `.` and ` `), each word capitalized and the rest lower-cased, and the name
/// cut after the first four-digit year between 1900 and `year_now`, which is put in brackets.
/// `None` on the inputs on which the scan cannot proceed (see `name_scan`).
pub open spec fn pretty_name(src: Seq<char>, year_now: int) -> Option<Seq<char>> {
    name_scan(src, name_scan_start(), year_now)
}

enum CloseOutcome {
    Open,
    Closed,
    Broken,
}

fn close_year_exec(out: &mut Vec<char>, digits: u8, year: u16, year_now: u16) -> (r: CloseOutcome)
    ensures
        match close_year(old(out)@, digits as int, year as int, year_now as int) {
            YearClose::Open => r is Open && final(out)@ == old(out)@,
            YearClose::Closed(o) => r is Closed && final(out)@ == o,
            YearClose::Broken => r is Broken,
        },
{
    if digits == 4 && 1900 <= year && year <= year_now {
        match find_byte_tail_start(out, 4) {
            None => CloseOutcome::Broken,
            Some(k) => {
                if k > 0 && out[k - 1] == '(' {
                    let ghost before = out@;
                    out.push(')');
                    assert(close_year(before, digits as int, year as int, year_now as int)
                        == YearClose::Closed(out@));
                } else {
                    let ghost before = out@;
                    out.truncate(k);
                    out.push('(');
                    push_decimal(year as u64, out);
                    out.push(')');
                    proof {
                        assert(out@ =~= before.take(k as int) + seq!['('] + decimal(year as nat)
                            + seq![')']);
                        assert(close_year(before, digits as int, year as int, year_now as int)
                            == YearClose::Closed(out@));
                    }
                }
                CloseOutcome::Closed
            },
        }
    } else {
        CloseOutcome::Open
    }
}

fn append_chars(out: &mut Vec<char>, more: Vec<char>)
    ensures
        final(out)@ == old(out)@ + more@,
{
    let mut more = more;
    out.append(&mut more);
}

/// Runs the pretty-name scan; `None` exactly where it cannot proceed.
pub fn pretty_name_chars(src: &str, year_now: u16) -> (r: Option<Vec<char>>)
    ensures
        match pretty_name(src@, year_now as int) {
            Some(o) => r matches Some(v) && v@ == o,
            None => r is None,
        },
{
    let chars = chars_of(src);
    let mut out: Vec<char> = Vec::new();
    let mut year: u16 = 0;
    let mut digits: u8 = 0;
    let mut whitespace = true;
    let mut i: usize = 0;
    proof {
        assert(chars@.skip(0) =~= src@);
    }
    while i < chars.len()
        invariant
            chars@ == src@,
            i <= chars@.len(),
            year < 10000,
            digits < 4 ==> year < 1000,
            digits < 3 ==> year < 100,
            digits < 2 ==> year < 10,
            digits == 0 ==> year == 0,
            name_scan(
                chars@.skip(i as int),
                NameScan { out: out@, year: year as int, digits: digits as int, whitespace },
                year_now as int,
            ) == pretty_name(src@, year_now as int),
        decreases chars@.len() - i,
    {
        let c = chars[i];
        let ghost st = NameScan { out: out@, year: year as int, digits: digits as int, whitespace };
        proof {
            assert(chars@.skip(i as int)[0] == c);
            assert(chars@.skip(i as int).drop_first() =~= chars@.skip(i + 1));
        }
        if '0' <= c && c <= '9' {
            if digits >= 255 {
                return None;
            }
            if digits < 4 {
                year = 10 * year + ((c as u32) - 48) as u16;
            }
            out.push(c);
            digits = digits + 1;
            whitespace = false;
        } else {
            match close_year_exec(&mut out, digits, year, year_now) {
                CloseOutcome::Broken => {
                    return None;
                },
                CloseOutcome::Closed => {
                    return Some(out);
                },
                CloseOutcome::Open => {},
            }
            if c == '_' || c == '.' || c == ' ' {
                if !whitespace {
                    out.push(' ');
                    whitespace = true;
                }
                year = 0;
                digits = 0;
            } else if whitespace {
                append_chars(&mut out, to_uppercase_chars(c));
                whitespace = false;
            } else {
                append_chars(&mut out, to_lowercase_chars(c));
                whitespace = false;
            }
        }
        i = i + 1;
    }
    match close_year_exec(&mut out, digits, year, year_now) {
        CloseOutcome::Broken => None,
        _ => Some(out),
    }
}

/// Writes into `dst` the pretty name of `src` for the current year `year_now`.
/// Writing to a `String` does not fail, so the result is always `Ok`.
pub fn make_pretty_name_in_year(src: &str, year_now: u16, dst: &mut String) -> (r: Result<
    (),
    std::fmt::Error,
>)
    requires
        pretty_name(src@, year_now as int) is Some,
    ensures
        r is Ok,
        final(dst)@ == pretty_name(src@, year_now as int)->0,
{
    let v = pretty_name_chars(src, year_now);
    match v {
        Some(v) => {
            *dst = string_of(v.as_slice());
            Ok(())
        },
        None => {
            proof {
                assert(false);
            }
            Ok(())
        },
    }
}

/// The pretty name of `src` for the year that the clock gave (truncated to `u16`); `None`
/// where the clock could not be read (`year` is `None`) or the scan cannot proceed.
pub open spec fn pretty_name_for_clock(src: Seq<char>, year: Option<i32>) -> Option<Seq<char>> {
    match year {
        None => None,
        Some(y) => pretty_name(src, (y as u16) as int),
    }
}

/// Writes into `dst` the pretty name of `src` for the year read from the system clock
/// (truncated to `u16`). Where the clock cannot be read, or the scan cannot proceed for that
/// year, `dst` is left unchanged and an error is returned.
pub fn make_pretty_name(src: &str, dst: &mut String) -> (r: Result<(), std::fmt::Error>)
    ensures
        exists|y: Option<i32>|
            clock_year(y) && match #[trigger] pretty_name_for_clock(src@, y) {
                Some(o) => r is Ok && final(dst)@ == o,
                None => r is Err && final(dst)@ == old(dst)@,
            },
{
    let y = current_year();
    match y {
        None => {
            assert(pretty_name_for_clock(src@, y) is None);
            Err(fmt_error())
        },
        Some(year) => {
            let year_now = year as u16;
            assert(pretty_name_for_clock(src@, y) == pretty_name(src@, year_now as int));
            match pretty_name_chars(src, year_now) {
                Some(_) => make_pretty_name_in_year(src, year_now, dst),
                None => Err(fmt_error()),
            }
        },
    }
}

/// What the scan of the source directory does with an entry.
#[derive(Debug, Clone, Copy, PartialEq, Eq)]
pub enum EntryAction {
    /// The entry is a source: publish it once it is old enough.
    Consider,
    /// The entry is a directory that is not a source: scan it too.
    Descend,
    /// Nothing is done with the entry.
    Skip,
}

/// The action for an entry that the context accepts as a source or not, and that is a
/// directory or not: sources are considered, other directories are scanned, the rest skipped.
pub fn entry_action(accepted: bool, is_dir: bool) -> (r: EntryAction)
    ensures
        r == if accepted {
            EntryAction::Consider
        } else if is_dir {
            EntryAction::Descend
        } else {
            EntryAction::Skip
        },
{
    if accepted {
        EntryAction::Consider
    } else if is_dir {
        EntryAction::Descend
    } else {
        EntryAction::Skip
    }
}

/// The name of the file that a source named `src_name` is remuxed into: its pretty name for
/// the year read from the clock, followed by `.mkv`. An error where the pretty name is.
pub fn destination_file_name(src_name: &str) -> (r: Result<String, std::fmt::Error>)
    ensures
        exists|y: Option<i32>|
            clock_year(y) && match #[trigger] pretty_name_for_clock(src_name@, y) {
                Some(o) => r matches Ok(s) && s@ == o + ".mkv"@,
                None => r is Err,
            },
{
    let mut name = String::new();
    let done = make_pretty_name(src_name, &mut name);
    match done {
        Ok(()) => {
            let mut v = chars_of(name.as_str());
            let ghost pretty = v@;
            v.push('.');
            v.push('m');
            v.push('k');
            v.push('v');
            let r = string_of(v.as_slice());
            proof {
                reveal_strlit(".mkv");
                assert(r@ =~= pretty + ".mkv"@);
            }
            Ok(r)
        },
        Err(e) => Err(e),
    }
}

/// Index of an ISO 639 language among the languages that the `isolang` crate knows
/// (the discriminant of `isolang::Language`).
pub type LangId = u16;

/// The primary language subtag of the BCP 47 language tag `tag`, or `None` where
/// `oxilangtag` does not accept `tag` as a well-formed tag.
pub uninterp spec fn primary_language_subtag(tag: Seq<char>) -> Option<Seq<char>>;

/// The language whose ISO 639-1 code is `code`, if `isolang` knows one.
pub uninterp spec fn iso639_1_language(code: Seq<char>) -> Option<LangId>;

/// The language whose ISO 639-3 code is `code`, if `isolang` knows one.
pub uninterp spec fn iso639_3_language(code: Seq<char>) -> Option<LangId>;

/// Calls `oxilangtag::LanguageTag::parse` and, on success, `primary_language`.
/// Trusted: the result is the named `primary_language_subtag` of `tag`; the subtag is a
/// slice of the tag from its start, so it is a prefix of `tag`.
#[verifier::external_body]
fn language_tag_primary(tag: &str) -> (r: Option<String>)
    ensures
        match r {
            Some(p) => primary_language_subtag(tag@) == Some(p@) && p@.is_prefix_of(tag@),
            None => primary_language_subtag(tag@) is None,
        },
{
    oxilangtag::LanguageTag::parse(tag).ok().map(|t| t.primary_language().to_string())
}

/// Calls `isolang::Language::from_639_1` and takes the discriminant of the language found.
/// Trusted: the result is the named `iso639_1_language` of `code`.
#[verifier::external_body]
fn language_from_639_1(code: &str) -> (r: Option<LangId>)
    ensures
        r == iso639_1_language(code@),
{
    isolang::Language::from_639_1(code).map(|l| l as LangId)
}

/// Calls `isolang::Language::from_639_3` and takes the discriminant of the language found.
/// Trusted: the result is the named `iso639_3_language` of `code`.
#[verifier::external_body]
fn language_from_639_3(code: &str) -> (r: Option<LangId>)
    ensures
        r == iso639_3_language(code@),
{
    isolang::Language::from_639_3(code).map(|l| l as LangId)
}

/// The language of a BCP 47 tag: its primary subtag read as an ISO 639-1 code, else as an
/// ISO 639-3 code.
pub open spec fn tag_language(tag: Seq<char>) -> Option<LangId> {
    match primary_language_subtag(tag) {
        None => None,
        Some(p) => if iso639_1_language(p) is Some {
            iso639_1_language(p)
        } else {
            iso639_3_language(p)
        },
    }
}

/// The language of the BCP 47 tag `tag`.
pub fn primary_lang(tag: &str) -> (r: Option<LangId>)
    ensures
        r == tag_language(tag@),
{
    match language_tag_primary(tag) {
        None => None,
        Some(p) => {
            let one = language_from_639_1(p.as_str());
            let three = language_from_639_3(p.as_str());
            match one {
                Some(l) => Some(l),
                None => three,
            }
        },
    }
}

/// `name` ends with a dot followed by `ext`, as `Path::extension` guarantees of a file name.
pub open spec fn dotted_suffix(name: Seq<char>, ext: Seq<char>) -> bool {
    &&& name.len() > ext.len()
    &&& name[name.len() - ext.len() - 1] == '.'
    &&& name.subrange(name.len() - ext.len(), name.len() as int) == ext
}

/// The file name without its extension and the dot before it (directories keep their name).
pub open spec fn name_without_ext(name: Seq<char>, is_dir: bool, ext: Option<Seq<char>>) -> Seq<
    char,
> {
    match ext {
        Some(e) if !is_dir => name.take(name.len() - e.len() - 1),
        _ => name,
    }
}

/// The name under which a source entry is published: its file name (`None` when it has none
/// or it is not UTF-8), without the extension for files.
pub fn extract_name_without_ext(name: Option<&str>, is_dir: bool, ext: Option<&str>) -> (r: Option<
    String,
>)
    requires
        match (name, ext) {
            (Some(n), Some(e)) => dotted_suffix(n@, e@),
            _ => true,
        },
    ensures
        match name {
            None => r is None,
            Some(n) => r matches Some(s) && s@ == name_without_ext(
                n@,
                is_dir,
                match ext {
                    Some(e) => Some(e@),
                    None => None,
                },
            ),
        },
{
    match name {
        None => None,
        Some(n) => {
            let chars = chars_of(n);
            match ext {
                Some(e) if !is_dir => {
                    let ec = chars_of(e);
                    let keep = chars.len() - ec.len() - 1;
                    Some(string_of(prefix_chars(&chars, keep).as_slice()))
                },
                _ => Some(string_of(chars.as_slice())),
            }
        },
    }
}

/// Law of the published name: for a file, the name without its extension, a dot and the
/// extension give back the file name.
pub proof fn lemma_name_without_ext_restores(name: Seq<char>, ext: Seq<char>)
    requires
        dotted_suffix(name, ext),
    ensures
        name_without_ext(name, false, Some(ext)) + seq!['.'] + ext == name,
{
    let k = name.len() - ext.len() - 1;
    assert(name_without_ext(name, false, Some(ext)) + seq!['.'] + ext =~= name) by {
        assert(name.subrange(k + 1, name.len() as int) == ext);
        assert forall|i: int| 0 <= i < name.len() implies (name.take(k) + seq!['.'] + ext)[i] == name[i] by {
            if i > k {
                assert(ext[i - k - 1] == name.subrange(k + 1, name.len() as int)[i - k - 1]);
            }
        }
    }
}

/// The first `k` characters of `v`.
pub(crate) fn prefix_chars(v: &Vec<char>, k: usize) -> (r: Vec<char>)
    requires
        k <= v@.len(),
    ensures
        r@ == v@.take(k as int),
{
    let mut r: Vec<char> = Vec::new();
    let mut i: usize = 0;
    while i < k
        invariant
            i <= k,
            k <= v@.len(),
            r@ == v@.take(i as int),
        decreases k - i,
    {
        r.push(v[i]);
        i = i + 1;
        proof {
            assert(r@ =~= v@.take(i as int));
        }
    }
    r
}

/// No two spaces in a row, no space in front, and no `.` or `_`.
pub open spec fn tidy_text(s: Seq<char>) -> bool {
    &&& forall|i: int| 0 <= i < s.len() - 1 ==> !(#[trigger] s[i] == ' ' && s[i + 1] == ' ')
    &&& forall|i: int| 0 <= i < s.len() ==> #[trigger] s[i] != '.' && s[i] != '_'
    &&& s.len() > 0 ==> s[0] != ' '
}

/// Every character of `s` is ASCII.
pub open spec fn all_ascii(s: Seq<char>) -> bool {
    forall|i: int| 0 <= i < s.len() ==> is_ascii_char(#[trigger] s[i])
}

/// The scan state keeps its text tidy, and a trailing space means a separator was last.
pub open spec fn tidy_scan(st: NameScan) -> bool {
    &&& tidy_text(st.out)
    &&& st.out.len() > 0 && st.out.last() == ' ' ==> st.whitespace
    &&& st.out.len() == 0 ==> st.whitespace
}

/// Appending a space after a character other than a space keeps a text tidy.
proof fn lemma_tidy_push_space(s: Seq<char>)
    requires
        tidy_text(s),
        s.len() > 0,
        s.last() != ' ',
    ensures
        tidy_text(s.push(' ')),
{
    let t = s.push(' ');
    assert forall|i: int| 0 <= i < t.len() - 1 implies !(#[trigger] t[i] == ' ' && t[i + 1] == ' ') by {
        if i + 1 < s.len() {
            assert(t[i] == s[i] && t[i + 1] == s[i + 1]);
        } else {
            assert(t[i] == s.last());
        }
    }
    assert forall|i: int| 0 <= i < t.len() implies #[trigger] t[i] != '.' && t[i] != '_' by {
        if i < s.len() {
            assert(t[i] == s[i]);
        }
    }
}

/// Appending a character that is neither a space, `.` nor `_` keeps a text tidy.
proof fn lemma_tidy_push(s: Seq<char>, c: char)
    requires
        tidy_text(s),
        c != ' ',
        c != '.',
        c != '_',
    ensures
        tidy_text(s.push(c)),
{
    let t = s.push(c);
    assert forall|i: int| 0 <= i < t.len() - 1 implies !(#[trigger] t[i] == ' ' && t[i + 1] == ' ') by {
        if i + 1 < s.len() {
            assert(t[i] == s[i] && t[i + 1] == s[i + 1]);
        }
    }
    assert forall|i: int| 0 <= i < t.len() implies #[trigger] t[i] != '.' && t[i] != '_' by {
        if i < s.len() {
            assert(t[i] == s[i]);
        }
    }
}

/// Appending characters other than a space, `.` and `_` keeps a text tidy.
proof fn lemma_tidy_append(s: Seq<char>, d: Seq<char>)
    requires
        tidy_text(s),
        forall|i: int| 0 <= i < d.len() ==> !is_name_separator(#[trigger] d[i]),
    ensures
        tidy_text(s + d),
    decreases d.len(),
{
    if d.len() == 0 {
        assert(s + d =~= s);
    } else {
        lemma_tidy_append(s, d.drop_last());
        assert(!is_name_separator(d[d.len() - 1]));
        lemma_tidy_push(s + d.drop_last(), d.last());
        assert(s + d =~= (s + d.drop_last()).push(d.last()));
    }
}

/// Closing a year keeps a tidy text tidy.
proof fn lemma_close_year_tidy(st: NameScan, year_now: int)
    requires
        tidy_scan(st),
    ensures
        close_year(st.out, st.digits, st.year, year_now) matches YearClose::Closed(o) ==> tidy_text(o),
{
    if let YearClose::Closed(o) = close_year(st.out, st.digits, st.year, year_now) {
        let k = byte_tail_start(st.out, 4)->0;
        lemma_byte_tail_start_bounds(st.out, 4);
        if k > 0 && st.out[k - 1] == '(' {
            lemma_tidy_push(st.out, ')');
        } else {
            let p = st.out.take(k);
            assert(tidy_text(p)) by {
                assert forall|i: int| 0 <= i < p.len() - 1 implies !(#[trigger] p[i] == ' ' && p[i + 1] == ' ') by {
                    assert(p[i] == st.out[i] && p[i + 1] == st.out[i + 1]);
                }
                assert forall|i: int| 0 <= i < p.len() implies #[trigger] p[i] != '.' && p[i] != '_' by {
                    assert(p[i] == st.out[i]);
                }
            }
            lemma_tidy_push(p, '(');
            let d = decimal(st.year as nat);
            lemma_decimal_digits(st.year as nat);
            assert forall|i: int| 0 <= i < d.len() implies !is_name_separator(#[trigger] d[i]) by {
                assert(is_digit(d[i]));
            }
            lemma_tidy_append(p.push('('), d);
            let acc = p.push('(') + d;
            lemma_tidy_push(acc, ')');
            assert(o =~= acc.push(')'));
        }
    }
}

/// The case mappings of `c` are not empty and hold no space, `.` or `_`.
pub open spec fn plain_case_mappings(c: char) -> bool {
    &&& upper_chars(c).len() > 0
    &&& lower_chars(c).len() > 0
    &&& forall|i: int|
        0 <= i < upper_chars(c).len() ==> !is_name_separator(#[trigger] upper_chars(c)[i])
    &&& forall|i: int|
        0 <= i < lower_chars(c).len() ==> !is_name_separator(#[trigger] lower_chars(c)[i])
}

/// A character that the pretty name keeps tidy: a digit, a separator, or a character whose
/// case mappings are plain (as those of every ASCII character are).
pub open spec fn tidy_name_char(c: char) -> bool {
    is_digit(c) || is_name_separator(c) || plain_case_mappings(c)
}

/// Every ASCII character is kept tidy.
proof fn lemma_ascii_tidy_name_char(c: char)
    requires
        is_ascii_char(c),
    ensures
        tidy_name_char(c),
{
    if !is_digit(c) && !is_name_separator(c) {
        assert(upper_chars(c) == seq![ascii_upper(c)]);
        assert(lower_chars(c) == seq![ascii_lower(c)]);
        assert(!is_name_separator(ascii_upper(c)));
        assert(!is_name_separator(ascii_lower(c)));
    }
}

/// Law of the pretty name: for a name whose characters are all kept tidy (every ASCII name
/// among them), the pretty name has no two spaces in a row, does not start with a space,
/// and has no `.` or `_` left.
pub proof fn lemma_pretty_name_tidy(src: Seq<char>, year_now: int)
    requires
        forall|i: int| 0 <= i < src.len() ==> tidy_name_char(#[trigger] src[i]),
    ensures
        pretty_name(src, year_now) matches Some(o) ==> tidy_text(o),
{
    lemma_name_scan_tidy(src, name_scan_start(), year_now);
}

/// Law of the pretty name for ASCII names: see `lemma_pretty_name_tidy`.
pub proof fn lemma_ascii_pretty_name_tidy(src: Seq<char>, year_now: int)
    requires
        all_ascii(src),
    ensures
        pretty_name(src, year_now) matches Some(o) ==> tidy_text(o),
{
    assert forall|i: int| 0 <= i < src.len() implies tidy_name_char(#[trigger] src[i]) by {
        lemma_ascii_tidy_name_char(src[i]);
    }
    lemma_pretty_name_tidy(src, year_now);
}

/// The scan keeps its state tidy on characters kept tidy, and ends with a tidy text.
proof fn lemma_name_scan_tidy(rest: Seq<char>, st: NameScan, year_now: int)
    requires
        tidy_scan(st),
        forall|i: int| 0 <= i < rest.len() ==> tidy_name_char(#[trigger] rest[i]),
    ensures
        name_scan(rest, st, year_now) matches Some(o) ==> tidy_text(o),
    decreases rest.len(),
{
    lemma_close_year_tidy(st, year_now);
    if rest.len() > 0 {
        let c = rest[0];
        assert(tidy_name_char(c));
        assert forall|i: int| 0 <= i < rest.drop_first().len() implies tidy_name_char(
            #[trigger] rest.drop_first()[i],
        ) by {
            assert(rest.drop_first()[i] == rest[i + 1]);
        }
        match name_step(st, c, year_now) {
            NameStep::Next(s) => {
                if is_digit(c) {
                    lemma_tidy_push(st.out, c);
                    assert(s.out.last() == c);
                } else if is_name_separator(c) {
                    if !st.whitespace {
                        lemma_tidy_push_space(st.out);
                    }
                } else {
                    let m = if st.whitespace { upper_chars(c) } else { lower_chars(c) };
                    lemma_tidy_append(st.out, m);
                    assert(s.out == st.out + m);
                    assert(s.out.last() == m.last());
                }
                lemma_name_scan_tidy(rest.drop_first(), s, year_now);
            },
            _ => {},
        }
    }
}

/// Whether `c` is an ASCII letter.
pub open spec fn is_ascii_letter(c: char) -> bool {
    ('a' <= c && c <= 'z') || ('A' <= c && c <= 'Z')
}

/// A word of ASCII letters with its first letter upper-cased and the others lower-cased.
pub open spec fn capitalized(w: Seq<char>) -> Seq<char> {
    seq![ascii_upper(w[0])] + w.drop_first().map_values(|c: char| ascii_lower(c))
}

/// The scan over ASCII letters inside a word, with no digit read, lower-cases them.
proof fn lemma_name_scan_lower(w: Seq<char>, tail: Seq<char>, st: NameScan, year_now: int)
    requires
        st.digits == 0,
        !st.whitespace,
        forall|i: int| 0 <= i < w.len() ==> is_ascii_letter(#[trigger] w[i]),
    ensures
        name_scan(w + tail, st, year_now) == name_scan(
            tail,
            NameScan { out: st.out + w.map_values(|c: char| ascii_lower(c)), ..st },
            year_now,
        ),
    decreases w.len(),
{
    if w.len() == 0 {
        assert(w + tail =~= tail);
        assert(st.out + w.map_values(|c: char| ascii_lower(c)) =~= st.out);
    } else {
        let c = w[0];
        assert(is_ascii_letter(c));
        assert((w + tail)[0] == c);
        assert((w + tail).drop_first() =~= w.drop_first() + tail);
        assert(lower_chars(c) == seq![ascii_lower(c)]);
        let s1 = NameScan { out: st.out + seq![ascii_lower(c)], ..st };
        assert(name_step(st, c, year_now) == NameStep::Next(s1));
        let r = w.drop_first();
        assert forall|i: int| 0 <= i < r.len() implies is_ascii_letter(#[trigger] r[i]) by {
            assert(r[i] == w[i + 1]);
        }
        lemma_name_scan_lower(r, tail, s1, year_now);
        assert(s1.out + r.map_values(|c: char| ascii_lower(c)) =~= st.out + w.map_values(
            |c: char| ascii_lower(c),
        ));
    }
}

/// The scan over at most four digits appends them and reads the number they write.
proof fn lemma_name_scan_digits(
    ds: Seq<char>,
    i: int,
    base: Seq<char>,
    whitespace: bool,
    tail: Seq<char>,
    year_now: int,
)
    requires
        forall|j: int| 0 <= j < ds.len() ==> is_digit(#[trigger] ds[j]),
        0 <= i <= ds.len() <= 4,
    ensures
        name_scan(
            ds.skip(i) + tail,
            NameScan {
                out: base + ds.take(i),
                year: decimal_value(ds.take(i)),
                digits: i,
                whitespace: if i == 0 {
                    whitespace
                } else {
                    false
                },
            },
            year_now,
        ) == name_scan(
            tail,
            NameScan {
                out: base + ds,
                year: decimal_value(ds),
                digits: ds.len() as int,
                whitespace: if ds.len() == 0 {
                    whitespace
                } else {
                    false
                },
            },
            year_now,
        ),
    decreases ds.len() - i,
{
    if i == ds.len() {
        assert(ds.skip(i) + tail =~= tail);
        assert(ds.take(i) =~= ds);
    } else {
        let c = ds[i];
        assert(is_digit(c));
        assert((ds.skip(i) + tail)[0] == c);
        assert((ds.skip(i) + tail).drop_first() =~= ds.skip(i + 1) + tail);
        assert(ds.take(i + 1).drop_last() =~= ds.take(i));
        assert(ds.take(i + 1).last() == c);
        assert((base + ds.take(i)).push(c) =~= base + ds.take(i + 1));
        let st = NameScan {
            out: base + ds.take(i),
            year: decimal_value(ds.take(i)),
            digits: i,
            whitespace: if i == 0 {
                whitespace
            } else {
                false
            },
        };
        let s1 = NameScan {
            out: base + ds.take(i + 1),
            year: decimal_value(ds.take(i + 1)),
            digits: i + 1,
            whitespace: false,
        };
        assert(name_step(st, c, year_now) == NameStep::Next(s1));
        lemma_name_scan_digits(ds, i + 1, base, whitespace, tail, year_now);
    }
}

/// The characters from which ASCII characters `d` at the end take `d.len()` bytes start
/// right after `s`.
proof fn lemma_byte_tail_ascii(s: Seq<char>, d: Seq<char>)
    requires
        forall|i: int| 0 <= i < d.len() ==> is_ascii_char(#[trigger] d[i]),
    ensures
        byte_tail_start(s + d, d.len() as int) == Some(s.len() as int),
    decreases d.len(),
{
    if d.len() == 0 {
        assert(s + d =~= s);
    } else {
        let p = d.drop_last();
        assert forall|i: int| 0 <= i < p.len() implies is_ascii_char(#[trigger] p[i]) by {
            assert(p[i] == d[i]);
        }
        assert(is_ascii_char(d[d.len() - 1]));
        assert(utf8_width((s + d).last()) == 1);
        assert((s + d).drop_last() =~= s + p);
        lemma_byte_tail_ascii(s, p);
    }
}

/// A year of four digits is written with four characters.
proof fn lemma_four_digit_year(y: nat)
    requires
        1000 <= y <= 9999,
    ensures
        decimal(y).len() == 4,
{
    assert(y / 10 >= 100 && y / 10 / 10 >= 10 && y / 10 / 10 / 10 < 10);
    assert(decimal(y / 10 / 10 / 10).len() == 1);
    assert(decimal(y / 10 / 10).len() == 2);
    assert(decimal(y / 10).len() == 3);
}

/// Law of the year in the pretty name: a word of ASCII letters, a `.`, a four-digit year
/// between 1900 and `year_now` and a `.` give the capitalized word and the year in brackets;
/// what follows is dropped.
pub proof fn lemma_pretty_name_brackets_year(w: Seq<char>, y: nat, tail: Seq<char>, year_now: int)
    requires
        w.len() > 0,
        forall|i: int| 0 <= i < w.len() ==> is_ascii_letter(#[trigger] w[i]),
        1900 <= y <= year_now,
        y <= 9999,
    ensures
        pretty_name(w + seq!['.'] + decimal(y) + seq!['.'] + tail, year_now) == Some(
            capitalized(w) + seq![' ', '('] + decimal(y) + seq![')'],
        ),
{
    let ds = decimal(y);
    lemma_decimal_digits(y);
    lemma_decimal_reads_back(y);
    lemma_four_digit_year(y);
    let c0 = w[0];
    let r = w.drop_first();
    let after = seq!['.'] + (ds + (seq!['.'] + tail));
    assert(w + seq!['.'] + decimal(y) + seq!['.'] + tail =~= seq![c0] + (r + after));
    let st0 = name_scan_start();
    assert(is_ascii_letter(c0));
    assert(upper_chars(c0) == seq![ascii_upper(c0)]);
    let s1 = NameScan { out: seq![ascii_upper(c0)], year: 0, digits: 0, whitespace: false };
    assert((seq![c0] + (r + after))[0] == c0);
    assert((seq![c0] + (r + after)).drop_first() =~= r + after);
    assert(Seq::<char>::empty() + upper_chars(c0) =~= seq![ascii_upper(c0)]);
    assert(name_step(st0, c0, year_now) == NameStep::Next(s1));
    assert forall|i: int| 0 <= i < r.len() implies is_ascii_letter(#[trigger] r[i]) by {
        assert(r[i] == w[i + 1]);
    }
    lemma_name_scan_lower(r, after, s1, year_now);
    let cap = capitalized(w);
    assert(s1.out + r.map_values(|c: char| ascii_lower(c)) =~= cap);
    let s2 = NameScan { out: cap, ..s1 };
    assert(after[0] == '.');
    assert(after.drop_first() =~= ds.skip(0) + (seq!['.'] + tail));
    let base = cap.push(' ');
    assert(base + ds.take(0) =~= base);
    assert(ds.take(0) =~= Seq::<char>::empty());
    let s3 = NameScan { out: base, year: 0, digits: 0, whitespace: true };
    assert(name_step(s2, '.', year_now) == NameStep::Next(s3));
    lemma_name_scan_digits(ds, 0, base, true, seq!['.'] + tail, year_now);
    let s4 = NameScan { out: base + ds, year: y as int, digits: 4, whitespace: false };
    assert forall|i: int| 0 <= i < ds.len() implies is_ascii_char(#[trigger] ds[i]) by {
        assert(is_digit(ds[i]));
    }
    lemma_byte_tail_ascii(base, ds);
    let k = base.len() as int;
    assert((base + ds)[k - 1] == ' ');
    assert((base + ds).take(k) =~= base);
    assert((seq!['.'] + tail)[0] == '.');
    assert(close_year(base + ds, 4, y as int, year_now) == YearClose::Closed(
        base + seq!['('] + ds + seq![')'],
    ));
    assert(name_step(s4, '.', year_now) == NameStep::Stop(base + seq!['('] + ds + seq![')']));
    assert(base + seq!['('] + ds + seq![')'] =~= cap + seq![' ', '('] + ds + seq![')']);
}

} // verus!
