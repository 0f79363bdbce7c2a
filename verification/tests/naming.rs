use mkvpeel::common;
use mkvpeel::util::{
    destination_file_name, entry_action, extract_name_without_ext, make_pretty_name, make_pretty_name_in_year,
    pretty_name_chars, primary_lang, EntryAction,
};

fn pretty(src: &str, year: u16) -> String {
    let mut dst = String::from("stale");
    make_pretty_name_in_year(src, year, &mut dst).unwrap();
    dst
}

#[test]
fn pretty_name_brackets_year_and_cuts_rest() {
    assert_eq!(pretty("Some.Movie_2010.1080p.BluRay", 2025), "Some Movie (2010)");
}

#[test]
fn pretty_name_keeps_existing_bracket() {
    assert_eq!(pretty("the.matrix.(1999).remastered", 2025), "The Matrix (1999)");
}

#[test]
fn pretty_name_year_at_end() {
    assert_eq!(pretty("alien 1979", 2025), "Alien (1979)");
}

#[test]
fn pretty_name_number_before_year() {
    assert_eq!(pretty("movie.2.2010.1080p", 2025), "Movie 2 (2010)");
    assert_eq!(pretty("Se7en_1995_x264", 2025), "Se7en (1995)");
}

#[test]
fn pretty_name_digit_count_restarts_at_separator() {
    let src = format!("{}.{}", "1".repeat(200), "2".repeat(200));
    assert!(pretty_name_chars(&src, 2025).is_some());
}

#[test]
fn pretty_name_future_year_is_plain_digits() {
    assert_eq!(pretty("movie 2099", 2025), "Movie 2099");
}

#[test]
fn pretty_name_capitalizes_words() {
    assert_eq!(pretty("ALL CAPS__title", 2025), "All Caps Title");
}

#[test]
fn pretty_name_single_spaces() {
    let out = pretty(" a..b  _c ", 2025);
    assert_eq!(out, "A B C ");
    assert!(!out.contains("  "));
    assert!(!out.starts_with(' '));
}

#[test]
fn pretty_name_multi_char_uppercase() {
    assert_eq!(pretty("\u{df}a", 2025), "SSa");
}

#[test]
fn pretty_name_non_ascii_lowercase() {
    assert_eq!(pretty("\u{c9}COLE", 2025), "\u{c9}cole");
}

#[test]
fn pretty_name_refuses_split_character() {
    assert!(pretty_name_chars("1\u{e9}999", 2025).is_none());
}

#[test]
fn pretty_name_refuses_too_many_digits() {
    let src = "1".repeat(300);
    assert!(pretty_name_chars(&src, 2025).is_none());
    let ok = "1".repeat(255);
    assert!(pretty_name_chars(&ok, 2025).is_some());
}

#[test]
fn pretty_name_from_clock() {
    let mut dst = String::new();
    assert!(make_pretty_name("big.buck.bunny", &mut dst).is_ok());
    assert_eq!(dst, "Big Buck Bunny");
    assert!(make_pretty_name("movie.2020.x", &mut dst).is_ok());
    assert_eq!(dst, "Movie (2020)");
    assert!(make_pretty_name("movie.2999.x", &mut dst).is_ok());
    assert_eq!(dst, "Movie 2999 X");
    assert_eq!(common::make_pretty_name("movie 2020 x").unwrap(), "movie (2020)");
    assert_eq!(common::make_pretty_name("movie 2999 x").unwrap(), "movie 2999 x");
}

#[test]
fn legacy_pretty_name_writes_year() {
    assert_eq!(common::make_pretty_name_in_year("Movie.2010.1080p", 2025).unwrap(), "Movie (2010)");
}

#[test]
fn legacy_pretty_name_bracketed_year() {
    assert_eq!(common::make_pretty_name_in_year("Movie (2010) x", 2025).unwrap(), "Movie (2010)");
}

#[test]
fn legacy_pretty_name_drops_trailing_number() {
    assert_eq!(common::make_pretty_name_in_year("Movie 2010", 2025).unwrap(), "Movie ");
}

#[test]
fn legacy_pretty_name_writes_back_numbers() {
    assert_eq!(common::make_pretty_name_in_year("part 007 x", 2025).unwrap(), "part 7 x");
    assert_eq!(common::make_pretty_name_in_year("007", 2025).unwrap(), "0");
}

#[test]
fn legacy_pretty_name_whitespace() {
    assert_eq!(common::make_pretty_name_in_year("a\tb\u{a0}c", 2025).unwrap(), "a b c");
}

#[test]
fn legacy_pretty_name_unicode_white_space() {
    assert_eq!(common::make_pretty_name_in_year("a\u{3000}b\u{2009}\u{85}c", 2025).unwrap(), "a b c");
    assert_eq!(common::make_pretty_name_in_year("a\u{180e}b\u{200b}c", 2025).unwrap(), "a\u{180e}b\u{200b}c");
    for c in ['\u{1680}', '\u{2000}', '\u{200a}', '\u{2028}', '\u{2029}', '\u{202f}', '\u{205f}', '\u{b}', '\u{c}', '\r', '\n'] {
        assert_eq!(common::make_pretty_name_in_year(&format!("x{}y", c), 2025).unwrap(), "x y");
    }
}

#[test]
fn legacy_pretty_name_refuses_overflow() {
    let src = format!("a{}", "9".repeat(25));
    assert!(common::pretty_name_chars(&src, 2025).is_none());
}

#[test]
fn legacy_pretty_name_from_clock() {
    assert_eq!(common::make_pretty_name("a.b").unwrap(), "a b");
}

#[test]
fn name_without_extension() {
    assert_eq!(extract_name_without_ext(Some("movie.x.mkv"), false, Some("mkv")).unwrap(), "movie.x");
    assert_eq!(extract_name_without_ext(Some("movie.mkv"), true, Some("mkv")).unwrap(), "movie.mkv");
    assert_eq!(extract_name_without_ext(Some("movie"), false, None).unwrap(), "movie");
    assert!(extract_name_without_ext(None, false, None).is_none());
}

#[test]
fn name_without_extension_restores() {
    let base = extract_name_without_ext(Some("a.b.c"), false, Some("c")).unwrap();
    assert_eq!(format!("{}.{}", base, "c"), "a.b.c");
}

#[test]
fn legacy_name_keeps_dot() {
    assert_eq!(common::extract_name_without_ext(Some("movie.mkv"), false, Some("mkv")).unwrap(), "movie.");
    assert_eq!(common::extract_name_without_ext(Some("dir.d"), true, Some("d")).unwrap(), "dir.d");
}

#[test]
fn name_missing_gives_none() {
    assert!(extract_name_without_ext(None, false, Some("mkv")).is_none());
    assert!(extract_name_without_ext(None, true, Some("mkv")).is_none());
    assert!(common::extract_name_without_ext(None, false, Some("mkv")).is_none());
    assert!(common::extract_name_without_ext(None, false, None).is_none());
}

#[test]
fn language_of_tags() {
    assert_eq!(primary_lang("en-US"), Some(isolang::Language::Eng as u16));
    assert_eq!(primary_lang("de"), Some(isolang::Language::Deu as u16));
    assert_eq!(primary_lang("rus"), Some(isolang::Language::Rus as u16));
    assert_eq!(primary_lang("not a tag"), None);
    assert_eq!(primary_lang("qqq"), None);
}

#[test]
fn legacy_pretty_name_single_spaced() {
    let out = common::make_pretty_name_in_year("a  b..c 12 . d", 2025).unwrap();
    assert_eq!(out, "a b c 12 d");
    assert!(!out.contains("  "));
    assert!(!out.contains('.'));
}

#[test]
fn pretty_name_non_ascii_is_tidy() {
    let out = pretty("..été__STRAßE . ǆungla_ﬁn", 2025);
    assert_eq!(out, "Été Straße Ǆungla FIn");
    assert!(!out.contains("  "));
    assert!(!out.contains('.'));
    assert!(!out.contains('_'));
    assert!(!out.starts_with(' '));
}

#[test]
fn entry_actions() {
    assert_eq!(entry_action(true, true), EntryAction::Consider);
    assert_eq!(entry_action(true, false), EntryAction::Consider);
    assert_eq!(entry_action(false, true), EntryAction::Descend);
    assert_eq!(entry_action(false, false), EntryAction::Skip);
}

#[test]
fn destination_names() {
    assert_eq!(destination_file_name("some.movie.2010.x264").unwrap(), "Some Movie (2010).mkv");
    assert_eq!(destination_file_name("big_buck_bunny").unwrap(), "Big Buck Bunny.mkv");
    assert!(destination_file_name(&"1".repeat(300)).is_err());
}
