use mkvpeel::args::{InvalidBuffError, TrackBuff};
use mkvpeel::json::codec_id;
use mkvpeel::peel::TrackCtx;
use std::str::FromStr;

#[test]
fn preference_reads_expression_and_score() {
    let b = TrackBuff::parse("dts:10").unwrap();
    assert_eq!(b.pattern(), "dts");
    assert_eq!(b.value(), 10);
}

#[test]
fn preference_ignores_third_field() {
    let b = TrackBuff::parse("a:1:2").unwrap();
    assert_eq!(b.pattern(), "a");
    assert_eq!(b.value(), 1);
}

#[test]
fn preference_signed_scores() {
    assert_eq!(TrackBuff::parse("a:+5").unwrap().value(), 5);
    assert_eq!(TrackBuff::parse("a:-32768").unwrap().value(), -32768);
}

#[test]
fn preference_missing_colon() {
    assert!(matches!(TrackBuff::parse("dts"), Err(InvalidBuffError::Format)));
}

#[test]
fn preference_bad_score() {
    assert!(matches!(TrackBuff::parse("dts:x"), Err(InvalidBuffError::Buff(_))));
    assert!(matches!(TrackBuff::parse("dts:32768"), Err(InvalidBuffError::Buff(_))));
    assert!(matches!(TrackBuff::parse("dts:"), Err(InvalidBuffError::Buff(_))));
    assert!(matches!(TrackBuff::parse("dts: 1"), Err(InvalidBuffError::Buff(_))));
}

#[test]
fn preference_bad_expression_first() {
    assert!(matches!(TrackBuff::parse("(:x"), Err(InvalidBuffError::Regex(_))));
    assert!(matches!(TrackBuff::parse("("), Err(InvalidBuffError::Regex(_))));
}

#[test]
fn preference_from_str() {
    let b = TrackBuff::from_str("Commentary:-100").unwrap();
    assert_eq!(b.pattern(), "Commentary");
    assert_eq!(b.value(), -100);
}

#[test]
fn preference_new() {
    assert_eq!(TrackBuff::new("truehd", 3).unwrap().pattern(), "truehd");
    assert!(matches!(TrackBuff::new("[", 3), Err(InvalidBuffError::Regex(_))));
}

#[test]
fn codec_names_map_to_ids() {
    assert_eq!(codec_id("DTS-HD Master Audio"), "A_DTS");
    assert_eq!(codec_id("E-AC-3"), "A_EAC3");
    assert_eq!(codec_id("AC-3"), "A_AC3");
    assert_eq!(codec_id("FLAC"), "A_FLAC");
    assert_eq!(codec_id("Timed Text"), "S_TEXT/UTF8");
    assert_eq!(codec_id("HDMV PGS"), "S_HDMV/PGS");
    assert_eq!(codec_id("Opus"), "Opus");
}

#[test]
fn codec_ids_are_fixed_points() {
    for name in ["DTS-HD Master Audio", "E-AC-3", "AC-3", "FLAC", "Timed Text", "HDMV PGS", "x"] {
        assert_eq!(codec_id(codec_id(name)), codec_id(name));
    }
}

#[test]
fn track_ctx_text() {
    assert_eq!(TrackCtx::new(3, -5).describe(), "id: 3, buff: -5");
    assert_eq!(TrackCtx::new(12, 40).describe(), "id: 12, buff: 40");
    assert_eq!(TrackCtx::new(0, -32768).describe(), "id: 0, buff: -32768");
}
