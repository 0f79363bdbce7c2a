//! Naming rules in which a year is read only after the first non-digit character and is
//! written back as a number.

use vstd::prelude::*;
use crate::text::{
    chars_of, decimal, decimal_value, digit_value, is_digit, is_white_space, is_whitespace_char,
    lemma_decimal_digits, lemma_decimal_reads_back, lemma_decimal_value_prefix, push_decimal,
    string_of,
};
use crate::util::{clock_year, current_year, dotted_suffix, fmt_error, prefix_chars};

verus! {

/// State of the scan: the text written so far, the number being read, and the flags
/// `unlocked` (a non-digit was seen), `in_progress` (a number is being read),
/// `bracketed` (the last non-space character was `(`) and `whitespace`.
pub struct YearScan {
    pub out: Seq<char>,
    pub year: int,
    pub unlocked: bool,
    pub in_progress: bool,
    pub bracketed: bool,
    pub whitespace: bool,
}

/// Outcome of one character of the scan.
pub enum YearStep {
    Next(YearScan),
    Stop(Seq<char>),
    Panic,
}

/// Separators that become a single space: `.` and white space.
pub open spec fn is_year_separator(c: char) -> bool {
    c == '.' || is_white_space(c)
}

/// What a non-digit character (or a digit before the first non-digit) does once the
/// pending number, if any, has been written back.
pub open spec fn plain_char(st: YearScan, c: char) -> YearScan {
    if is_year_separator(c) {
        YearScan {
            out: if st.whitespace { st.out } else { st.out.push(' ') },
            unlocked: true,
            bracketed: false,
            whitespace: true,
            ..st
        }
    } else {
        YearScan {
            out: st.out.push(c),
            unlocked: true,
            bracketed: c == '(',
            whitespace: false,
            ..st
        }
    }
}

/// One character of the scan.
pub open spec fn year_step(st: YearScan, c: char, year_now: int) -> YearStep {
    if is_digit(c) && st.unlocked {
        let y = 10 * st.year + digit_value(c);
        if y > u64::MAX {
            YearStep::Panic
        } else {
            YearStep::Next(YearScan { year: y, in_progress: true, whitespace: false, ..st })
        }
    } else if st.in_progress && 1900 <= st.year && st.year <= year_now {
        YearStep::Stop(
            (if st.bracketed { st.out } else { st.out.push('(') }) + decimal(st.year as nat)
                + seq![')'],
        )
    } else if st.in_progress {
        YearStep::Next(
            plain_char(
                YearScan {
                    out: st.out + decimal(st.year as nat),
                    in_progress: false,
                    year: 0,
                    ..st
                },
                c,
            ),
        )
    } else {
        YearStep::Next(plain_char(st, c))
    }
}

/// The scan over `rest` from state `st`; `None` where a number leaves `u64`. A number that is
/// still being read when the input ends is dropped.
pub open spec fn year_scan(rest: Seq<char>, st: YearScan, year_now: int) -> Option<Seq<char>>
    decreases rest.len(),
{
    if rest.len() == 0 {
        Some(st.out)
    } else {
        match year_step(st, rest[0], year_now) {
            YearStep::Panic => None,
            YearStep::Stop(o) => Some(o),
            YearStep::Next(s) => year_scan(rest.drop_first(), s, year_now),
        }
    }
}

pub open spec fn year_scan_start() -> YearScan {
    YearScan {
        out: Seq::empty(),
        year: 0,
        unlocked: false,
        in_progress: false,
        bracketed: false,
        whitespace: false,
    }
}

/// The pretty name of `src` in this form, when the current year is `year_now`; `None` on the
/// inputs on which a run of digits leaves `u64`.
pub open spec fn pretty_name(src: Seq<char>, year_now: int) -> Option<Seq<char>> {
    year_scan(src, year_scan_start(), year_now)
}

fn plain_char_exec(
    out: &mut Vec<char>,
    c: char,
    unlocked: &mut bool,
    bracketed: &mut bool,
    whitespace: &mut bool,
)
    ensures
        ({
            let st = YearScan {
                out: old(out)@,
                year: 0,
                unlocked: *old(unlocked),
                in_progress: false,
                bracketed: *old(bracketed),
                whitespace: *old(whitespace),
            };
            let n = plain_char(st, c);
            &&& final(out)@ == n.out
            &&& *final(unlocked) == n.unlocked
            &&& *final(bracketed) == n.bracketed
            &&& *final(whitespace) == n.whitespace
        }),
{
    *unlocked = true;
    if c == '.' || is_whitespace_char(c) {
        *bracketed = false;
        if !*whitespace {
            out.push(' ');
            *whitespace = true;
        }
    } else {
        *bracketed = c == '(';
        *whitespace = false;
        out.push(c);
    }
}

/// Runs the scan; `None` exactly where a run of digits leaves `u64`.
pub fn pretty_name_chars(src: &str, year_now: u64) -> (r: Option<Vec<char>>)
    ensures
        match pretty_name(src@, year_now as int) {
            Some(o) => r matches Some(v) && v@ == o,
            None => r is None,
        },
{
    let chars = chars_of(src);
    let mut out: Vec<char> = Vec::new();
    let mut year: u64 = 0;
    let mut unlocked = false;
    let mut in_progress = false;
    let mut bracketed = false;
    let mut whitespace = false;
    let mut i: usize = 0;
    proof {
        assert(chars@.skip(0) =~= src@);
    }
    while i < chars.len()
        invariant
            chars@ == src@,
            i <= chars@.len(),
            !in_progress ==> year == 0,
            year_scan(
                chars@.skip(i as int),
                YearScan {
                    out: out@,
                    year: year as int,
                    unlocked,
                    in_progress,
                    bracketed,
                    whitespace,
                },
                year_now as int,
            ) == pretty_name(src@, year_now as int),
        decreases chars@.len() - i,
    {
        let c = chars[i];
        proof {
            assert(chars@.skip(i as int)[0] == c);
            assert(chars@.skip(i as int).drop_first() =~= chars@.skip(i + 1));
        }
        if '0' <= c && c <= '9' && unlocked {
            let d: u64 = ((c as u32) - 48) as u64;
            match year.checked_mul(10) {
                None => {
                    return None;
                },
                Some(t) => match t.checked_add(d) {
                    None => {
                        return None;
                    },
                    Some(y) => {
                        year = y;
                    },
                },
            }
            whitespace = false;
            in_progress = true;
        } else {
            if in_progress {
                if 1900 <= year && year <= year_now {
                    if !bracketed {
                        out.push('(');
                    }
                    push_decimal(year, &mut out);
                    out.push(')');
                    return Some(out);
                } else {
                    push_decimal(year, &mut out);
                    in_progress = false;
                    year = 0;
                }
            }
            plain_char_exec(&mut out, c, &mut unlocked, &mut bracketed, &mut whitespace);
        }
        i = i + 1;
    }
    Some(out)
}

/// The pretty name of `src` in this form for the current year `year_now`.
/// Writing to a `String` does not fail, so the result is always `Ok`.
pub fn make_pretty_name_in_year(src: &str, year_now: u64) -> (r: Result<String, std::fmt::Error>)
    requires
        pretty_name(src@, year_now as int) is Some,
    ensures
        r matches Ok(s) && s@ == pretty_name(src@, year_now as int)->0,
{
    match pretty_name_chars(src, year_now) {
        Some(v) => Ok(string_of(v.as_slice())),
        None => Err(fmt_error()),
    }
}

/// The pretty name of `src` in this form for the year that the clock gave (converted to
/// `u64`); `None` where the clock could not be read (`year` is `None`) or a run of digits
/// leaves `u64`.
pub open spec fn pretty_name_for_clock(src: Seq<char>, year: Option<i32>) -> Option<Seq<char>> {
    match year {
        None => None,
        Some(y) => pretty_name(src, (y as u64) as int),
    }
}

/// The pretty name of `src` in this form for the year read from the system clock (converted
/// to `u64`). Where the clock cannot be read, or a run of digits leaves `u64`, an error is
/// returned.
pub fn make_pretty_name(src: &str) -> (r: Result<String, std::fmt::Error>)
    ensures
        exists|y: Option<i32>|
            clock_year(y) && match #[trigger] pretty_name_for_clock(src@, y) {
                Some(o) => r matches Ok(s) && s@ == o,
                None => r is Err,
            },
{
    let y = current_year();
    match y {
        None => {
            assert(pretty_name_for_clock(src@, y) is None);
            Err(fmt_error())
        },
        Some(year) => {
            let year_now = year as u64;
            assert(pretty_name_for_clock(src@, y) == pretty_name(src@, year_now as int));
            match pretty_name_chars(src, year_now) {
                Some(_) => make_pretty_name_in_year(src, year_now),
                None => Err(fmt_error()),
            }
        },
    }
}

/// The file name with its extension cut off but the dot kept (directories keep their name).
pub open spec fn name_without_ext(name: Seq<char>, is_dir: bool, ext: Option<Seq<char>>) -> Seq<
    char,
> {
    match ext {
        Some(e) if !is_dir => name.take(name.len() - e.len()),
        _ => name,
    }
}

/// Law of the published name in this form: for a file, the name with its extension cut off
/// ends with a dot, and adding the extension back gives the file name.
pub proof fn lemma_name_without_ext_keeps_dot(name: Seq<char>, ext: Seq<char>)
    requires
        dotted_suffix(name, ext),
    ensures
        name_without_ext(name, false, Some(ext)) + ext == name,
        name_without_ext(name, false, Some(ext)).last() == '.',
{
    let k = name.len() - ext.len();
    assert(name_without_ext(name, false, Some(ext)) + ext =~= name) by {
        assert(name.subrange(k, name.len() as int) == ext);
        assert forall|i: int| 0 <= i < name.len() implies (name.take(k) + ext)[i] == name[i] by {
            if i >= k {
                assert(ext[i - k] == name.subrange(k, name.len() as int)[i - k]);
            }
        }
    }
}

/// The name under which a source entry is published in this form: its file name (`None` when
/// it has none or it is not UTF-8), with the extension cut off for files.
pub fn extract_name_without_ext(name: Option<&str>, is_dir: bool, ext: Option<&str>) -> (r: Option<
    String,
>)
    requires
        match (name, ext) {
            (Some(n), Some(e)) => dotted_suffix(n@, e@),
            _ => true,
        },
    ensures
        match name {
            None => r is None,
            Some(n) => r matches Some(s) && s@ == name_without_ext(
                n@,
                is_dir,
                match ext {
                    Some(e) => Some(e@),
                    None => None,
                },
            ),
        },
{
    match name {
        None => None,
        Some(n) => {
            let chars = chars_of(n);
            match ext {
                Some(e) if !is_dir => {
                    let ec = chars_of(e);
                    let keep = chars.len() - ec.len();
                    Some(string_of(prefix_chars(&chars, keep).as_slice()))
                },
                _ => Some(string_of(chars.as_slice())),
            }
        },
    }
}

/// No two spaces in a row and no `.`.
pub open spec fn single_spaced(s: Seq<char>) -> bool {
    &&& forall|i: int| 0 <= i < s.len() - 1 ==> !(#[trigger] s[i] == ' ' && s[i + 1] == ' ')
    &&& forall|i: int| 0 <= i < s.len() ==> #[trigger] s[i] != '.'
}

/// The scan keeps its text single-spaced; a trailing space means a separator was last or a
/// number is being read.
pub open spec fn single_spaced_scan(st: YearScan) -> bool {
    &&& single_spaced(st.out)
    &&& st.out.len() > 0 && st.out.last() == ' ' ==> st.whitespace || st.in_progress
}

/// Appending a character that is neither a space nor `.` keeps a text single-spaced.
proof fn lemma_spaced_push(s: Seq<char>, c: char)
    requires
        single_spaced(s),
        c != ' ',
        c != '.',
    ensures
        single_spaced(s.push(c)),
{
    let t = s.push(c);
    assert forall|i: int| 0 <= i < t.len() - 1 implies !(#[trigger] t[i] == ' ' && t[i + 1] == ' ') by {
        if i + 1 < s.len() {
            assert(t[i] == s[i] && t[i + 1] == s[i + 1]);
        }
    }
    assert forall|i: int| 0 <= i < t.len() implies #[trigger] t[i] != '.' by {
        if i < s.len() {
            assert(t[i] == s[i]);
        }
    }
}

/// Appending a space after a character other than a space keeps a text single-spaced.
proof fn lemma_spaced_push_space(s: Seq<char>)
    requires
        single_spaced(s),
        s.len() == 0 || s.last() != ' ',
    ensures
        single_spaced(s.push(' ')),
{
    let t = s.push(' ');
    assert forall|i: int| 0 <= i < t.len() - 1 implies !(#[trigger] t[i] == ' ' && t[i + 1] == ' ') by {
        if i + 1 < s.len() {
            assert(t[i] == s[i] && t[i + 1] == s[i + 1]);
        } else {
            assert(t[i] == s.last());
        }
    }
    assert forall|i: int| 0 <= i < t.len() implies #[trigger] t[i] != '.' by {
        if i < s.len() {
            assert(t[i] == s[i]);
        }
    }
}

/// Appending digits keeps a text single-spaced.
proof fn lemma_spaced_append_digits(s: Seq<char>, d: Seq<char>)
    requires
        single_spaced(s),
        forall|i: int| 0 <= i < d.len() ==> is_digit(#[trigger] d[i]),
    ensures
        single_spaced(s + d),
    decreases d.len(),
{
    if d.len() == 0 {
        assert(s + d =~= s);
    } else {
        lemma_spaced_append_digits(s, d.drop_last());
        assert(is_digit(d[d.len() - 1]));
        lemma_spaced_push(s + d.drop_last(), d.last());
        assert(s + d =~= (s + d.drop_last()).push(d.last()));
    }
}

/// A character keeps the scan single-spaced, once no number is pending.
proof fn lemma_spaced_plain(st: YearScan, c: char)
    requires
        single_spaced_scan(st),
        !st.in_progress,
    ensures
        single_spaced_scan(plain_char(st, c)),
{
    if is_year_separator(c) {
        if !st.whitespace {
            lemma_spaced_push_space(st.out);
        }
    } else {
        assert(is_white_space(' '));
        lemma_spaced_push(st.out, c);
    }
}

/// The scan keeps its state single-spaced.
proof fn lemma_year_scan_spaced(rest: Seq<char>, st: YearScan, year_now: int)
    requires
        single_spaced_scan(st),
    ensures
        year_scan(rest, st, year_now) matches Some(o) ==> single_spaced(o),
    decreases rest.len(),
{
    if rest.len() > 0 {
        let c = rest[0];
        lemma_decimal_digits(st.year as nat);
        if is_digit(c) && st.unlocked {
        } else if st.in_progress && 1900 <= st.year && st.year <= year_now {
            let head = if st.bracketed { st.out } else { st.out.push('(') };
            if !st.bracketed {
                lemma_spaced_push(st.out, '(');
            }
            lemma_spaced_append_digits(head, decimal(st.year as nat));
            lemma_spaced_push(head + decimal(st.year as nat), ')');
        } else if st.in_progress {
            let d = decimal(st.year as nat);
            lemma_spaced_append_digits(st.out, d);
            assert((st.out + d).last() == d.last());
            lemma_spaced_plain(
                YearScan { out: st.out + d, in_progress: false, year: 0, ..st },
                c,
            );
        } else {
            lemma_spaced_plain(st, c);
        }
        match year_step(st, c, year_now) {
            YearStep::Next(s) => lemma_year_scan_spaced(rest.drop_first(), s, year_now),
            _ => {},
        }
    }
}

/// Law of the pretty name in this form: it has no two spaces in a row and no `.` left.
pub proof fn lemma_pretty_name_single_spaced(src: Seq<char>, year_now: int)
    ensures
        pretty_name(src, year_now) matches Some(o) ==> single_spaced(o),
{
    lemma_year_scan_spaced(src, year_scan_start(), year_now);
}

/// The scan over characters that are neither digits nor separators, with no number pending,
/// copies them.
proof fn lemma_year_scan_word(w: Seq<char>, tail: Seq<char>, st: YearScan, year_now: int)
    requires
        !st.in_progress,
        forall|i: int| 0 <= i < w.len() ==> !is_digit(#[trigger] w[i]) && !is_year_separator(w[i]),
    ensures
        year_scan(w + tail, st, year_now) == year_scan(
            tail,
            if w.len() == 0 {
                st
            } else {
                YearScan {
                    out: st.out + w,
                    unlocked: true,
                    bracketed: w.last() == '(',
                    whitespace: false,
                    ..st
                }
            },
            year_now,
        ),
    decreases w.len(),
{
    if w.len() == 0 {
        assert(w + tail =~= tail);
    } else {
        let c = w[0];
        assert(!is_digit(c) && !is_year_separator(c));
        assert((w + tail)[0] == c);
        assert((w + tail).drop_first() =~= w.drop_first() + tail);
        let s1 = YearScan {
            out: st.out.push(c),
            unlocked: true,
            bracketed: c == '(',
            whitespace: false,
            ..st
        };
        assert(year_step(st, c, year_now) == YearStep::Next(s1));
        let r = w.drop_first();
        assert forall|i: int| 0 <= i < r.len() implies !is_digit(#[trigger] r[i])
            && !is_year_separator(r[i]) by {
            assert(r[i] == w[i + 1]);
        }
        lemma_year_scan_word(r, tail, s1, year_now);
        if r.len() > 0 {
            assert(s1.out + r =~= st.out + w);
            assert(r.last() == w.last());
        } else {
            assert(st.out.push(c) =~= st.out + w);
        }
    }
}

/// Reading the digits `ds` from the `i`th on, once a non-digit was seen, gives the number they
/// write.
proof fn lemma_year_scan_digits(
    ds: Seq<char>,
    i: int,
    tail: Seq<char>,
    st: YearScan,
    year_now: int,
)
    requires
        forall|j: int| 0 <= j < ds.len() ==> is_digit(#[trigger] ds[j]),
        0 <= i <= ds.len(),
        st.unlocked,
        st.year == decimal_value(ds.take(i)),
        i > 0 ==> st.in_progress,
        decimal_value(ds) <= u64::MAX,
    ensures
        year_scan(ds.skip(i) + tail, st, year_now) == year_scan(
            tail,
            if i == ds.len() {
                st
            } else {
                YearScan { year: decimal_value(ds), in_progress: true, whitespace: false, ..st }
            },
            year_now,
        ),
    decreases ds.len() - i,
{
    if i == ds.len() {
        assert(ds.skip(i) + tail =~= tail);
    } else {
        let c = ds[i];
        assert(is_digit(c));
        assert((ds.skip(i) + tail)[0] == c);
        assert((ds.skip(i) + tail).drop_first() =~= ds.skip(i + 1) + tail);
        assert(ds.take(i + 1).drop_last() =~= ds.take(i));
        assert(ds.take(i + 1).last() == c);
        let y = 10 * st.year + digit_value(c);
        assert(y == decimal_value(ds.take(i + 1)));
        lemma_decimal_value_prefix(ds, i + 1);
        let s1 = YearScan { year: y, in_progress: true, whitespace: false, ..st };
        assert(year_step(st, c, year_now) == YearStep::Next(s1));
        lemma_year_scan_digits(ds, i + 1, tail, s1, year_now);
        if i + 1 == ds.len() {
            assert(ds.take(i + 1) =~= ds);
        }
    }
}

/// Law of the year in this form: a year between 1900 and `year_now`, read after a word and a
/// space and followed by a space, ends the name in brackets; what follows is dropped.
pub proof fn lemma_pretty_name_brackets_year(
    w: Seq<char>,
    y: nat,
    tail: Seq<char>,
    year_now: int,
)
    requires
        forall|i: int| 0 <= i < w.len() ==> !is_digit(#[trigger] w[i]) && !is_year_separator(w[i]),
        1900 <= y <= year_now,
        y <= u64::MAX,
    ensures
        pretty_name(w + seq![' '] + decimal(y) + seq![' '] + tail, year_now) == Some(
            w + seq![' ', '('] + decimal(y) + seq![')'],
        ),
{
    let ds = decimal(y);
    lemma_decimal_digits(y);
    lemma_decimal_reads_back(y);
    let rest = seq![' '] + (ds + (seq![' '] + tail));
    assert(w + seq![' '] + decimal(y) + seq![' '] + tail =~= w + rest);
    let st0 = year_scan_start();
    lemma_year_scan_word(w, rest, st0, year_now);
    let s1 = if w.len() == 0 {
        st0
    } else {
        YearScan { out: st0.out + w, unlocked: true, bracketed: w.last() == '(', whitespace: false, ..st0 }
    };
    assert(s1.out =~= w);
    assert(!s1.whitespace && !s1.in_progress && s1.year == 0);
    assert(is_white_space(' '));
    assert(rest[0] == ' ');
    assert(rest.drop_first() =~= ds.skip(0) + (seq![' '] + tail));
    let s2 = YearScan { out: w.push(' '), unlocked: true, bracketed: false, whitespace: true, ..s1 };
    assert(year_step(s1, ' ', year_now) == YearStep::Next(s2));
    assert(ds.take(0) =~= Seq::<char>::empty());
    lemma_year_scan_digits(ds, 0, seq![' '] + tail, s2, year_now);
    let s3 = YearScan { year: y as int, in_progress: true, whitespace: false, ..s2 };
    assert((seq![' '] + tail)[0] == ' ');
    assert(year_step(s3, ' ', year_now) == YearStep::Stop(w.push(' ').push('(') + ds + seq![')']));
    assert(w.push(' ').push('(') + ds + seq![')'] =~= w + seq![' ', '('] + ds + seq![')']);
}

} // verus!
