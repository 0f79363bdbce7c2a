use isolang::Language;
use mkvpeel::args::TrackBuff;
use mkvpeel::bdmv::{check_duration, check_video_audio, find_best_playlist, video_audio, Bdmv, PlaylistSummary, StreamSummary, TsStreamType};
use mkvpeel::json::{CtrInfo, CtrPropsInfo, PlaylistInfo, TrackInfo, TrackPropsInfo};
use mkvpeel::mkv::{Mkv, MkvTrack, MkvTrackType};
use mkvpeel::peel::{PeelCtx, PlayListCtx, TrackField, TrackKind, TrackKindCtx};

fn track(id: u16, kind: &str, codec: &str, lang: &str, name: Option<&str>, commentary: Option<bool>) -> TrackInfo {
    TrackInfo {
        id,
        kind: Some(kind.to_string()),
        codec: Some(codec.to_string()),
        properties: TrackPropsInfo {
            codec_id: None,
            language: Some(lang.to_string()),
            language_ietf: None,
            track_name: name.map(|n| n.to_string()),
            flag_commentary: commentary,
        },
    }
}

fn playlist(tracks: Vec<TrackInfo>, hours: u64) -> PlaylistInfo {
    PlaylistInfo {
        container: CtrInfo {
            properties: CtrPropsInfo { playlist_duration: Some(hours * 3_600_000_000_000) },
            recognized: true,
            supported: true,
        },
        tracks,
    }
}

fn eng() -> u16 {
    Language::Eng as u16
}

fn ctx(codecs: &[&str], names: &[&str]) -> PeelCtx {
    PeelCtx::new(
        vec![eng(), Language::Deu as u16],
        codecs.iter().map(|s| TrackBuff::parse(s).unwrap()).collect(),
        names.iter().map(|s| TrackBuff::parse(s).unwrap()).collect(),
        true,
    )
}

fn movie() -> PlaylistInfo {
    playlist(
        vec![
            track(0, "video", "AVC", "eng", None, None),
            track(1, "audio", "AC-3", "eng", None, None),
            track(2, "audio", "DTS-HD Master Audio", "eng", None, None),
            track(3, "audio", "DTS-HD Master Audio", "eng", Some("Director's commentary"), Some(true)),
            track(4, "audio", "AC-3", "fre", None, None),
            track(5, "subtitles", "HDMV PGS", "eng", Some("Forced"), None),
            track(6, "subtitles", "HDMV PGS", "eng", Some("Full"), None),
            track(7, "subtitles", "HDMV PGS", "de", None, None),
        ],
        2,
    )
}

#[test]
fn best_track_per_language() {
    let mut c = ctx(&["dts:10"], &["forced:-5"]);
    c.begin();
    assert_eq!(c.take(&movie()), true);
    let args = c.track_args();
    assert_eq!(args[0..3], ["--no-buttons", "--no-attachments", "--no-global-tags"]);
    assert_eq!(args[3], "--audio-tracks");
    assert_eq!(args[4], "2");
    assert_eq!(args[5], "--subtitle-tracks");
    let mut subs: Vec<&str> = args[6].split(',').collect();
    subs.sort();
    assert_eq!(subs, vec!["6", "7"]);
    assert_eq!(args.len(), 7);
}

#[test]
fn first_of_equal_tracks_is_kept() {
    let mut c = ctx(&[], &[]);
    assert!(c.take(&movie()));
    let args = c.track_args();
    assert_eq!(args[4], "1");
}

#[test]
fn commentary_kept_when_not_skipped() {
    let mut c = PeelCtx::new(vec![eng()], vec![TrackBuff::parse("dts:1").unwrap()], vec![TrackBuff::parse("commentary:5").unwrap()], false);
    assert!(c.take(&movie()));
    let args = c.track_args();
    assert_eq!(args[4], "3");
}

#[test]
fn no_wanted_language_no_track_option() {
    let mut c = PeelCtx::new(vec![Language::Jpn as u16], vec![], vec![], true);
    assert!(c.take(&movie()));
    assert_eq!(c.track_args(), vec!["--no-buttons", "--no-attachments", "--no-global-tags"]);
}

#[test]
fn ids_are_asked_once() {
    let mut c = ctx(&[], &[]);
    assert!(c.take(&movie()));
    let first = c.track_args();
    let second = c.track_args();
    assert_eq!(first, second);
}

#[test]
fn playlists_compete_by_score() {
    let mut c = ctx(&[], &[]);
    c.begin();
    let small = playlist(vec![track(0, "video", "AVC", "eng", None, None)], 2);
    let big = movie();
    assert_eq!(c.offer(&small), Some(true));
    assert_eq!(c.offer(&big), Some(true));
    assert_eq!(c.offer(&small), Some(false));
    assert_eq!(c.offer(&movie()), Some(false));
    assert_eq!(c.track_args()[4], "1");
}

#[test]
fn playlists_outside_length_are_ignored() {
    let mut c = ctx(&[], &[]);
    c.begin();
    assert_eq!(c.offer(&playlist(movie().tracks, 7)), Some(false));
    let mut short = movie();
    short.container.properties.playlist_duration = Some(3_599_999_999_999);
    assert_eq!(c.offer(&short), Some(false));
    let mut unknown = movie();
    unknown.container.recognized = false;
    assert_eq!(c.offer(&unknown), Some(false));
    assert_eq!(c.track_args().len(), 3);
}

#[test]
fn score_overflow_is_refused() {
    let mut c = ctx(&[], &[]);
    let tracks = (0..70).map(|i| track(i, "video", "AVC", "eng", None, None)).collect();
    assert_eq!(c.offer(&playlist(tracks, 2)), None);
    let tracks: Vec<TrackInfo> = (0..70).map(|i| track(i, "video", "AVC", "eng", None, None)).collect();
    assert!(!c.take(&playlist(tracks, 2)));
}

#[test]
fn buff_overflow_is_refused() {
    let mut c = ctx(&["ac:32767", "ac:1"], &[]);
    assert_eq!(c.offer(&movie()), None);
    let mut d = ctx(&["ac:32767"], &["x:1"]);
    assert_eq!(d.offer(&movie()), Some(true));
}

#[test]
fn video_extensions() {
    let c = ctx(&[], &[]);
    assert!(c.accepts_extension("mkv"));
    assert!(c.accepts_extension("MP4"));
    assert!(c.accepts_extension("Avi"));
    assert!(c.accepts_extension("mov"));
    assert!(!c.accepts_extension("mpls"));
    assert!(!c.accepts_extension("mkvv"));
}

#[test]
fn track_getters() {
    let mut t = track(9, "audio", "AC-3", "eng", Some("Main"), None);
    assert_eq!(t.id(), 9);
    assert_eq!(t.kind(), Some("audio"));
    assert_eq!(t.codec(), Some("A_AC3"));
    assert_eq!(t.name(), Some("Main"));
    assert!(!t.is_commentary());
    assert_eq!(t.lang(), Some(eng()));
    t.properties.codec_id = Some("A_TRUEHD".to_string());
    t.properties.language_ietf = Some("de-DE".to_string());
    assert_eq!(t.codec(), Some("A_TRUEHD"));
    assert_eq!(t.lang(), Some(Language::Deu as u16));
    t.properties.language_ietf = Some("!!".to_string());
    assert_eq!(t.lang(), Some(eng()));
}

#[test]
fn playlist_getters() {
    let p = movie();
    assert_eq!(p.tracks().len(), 8);
    assert!(p.recognized());
    assert!(p.supported());
    assert_eq!(p.duration(), Some(std::time::Duration::from_secs(7200)));
}

#[test]
fn playlist_duration_is_nanoseconds() {
    let mut p = playlist(Vec::new(), 1);
    p.container.properties.playlist_duration = Some(5_400_000_000_000);
    assert_eq!(p.duration(), Some(std::time::Duration::from_secs(5400)));
    p.container.properties.playlist_duration = Some(1_500);
    assert_eq!(p.duration(), Some(std::time::Duration::from_nanos(1_500)));
    p.container.properties.playlist_duration = None;
    assert_eq!(p.duration(), None);
}

#[test]
fn kind_contexts() {
    let mut k = TrackKindCtx::new();
    assert!(k.is_empty());
    k.upsert(&[eng()], &[], &[], &track(4, "audio", "AC-3", "eng", None, None));
    assert!(!k.is_empty());
    assert_eq!(k.get_ids().unwrap(), "4");
    k.clear();
    assert!(k.is_empty());
    assert_eq!(k.get_ids().unwrap(), "");
    let mut p = PlayListCtx::new();
    p.reload(&movie(), &[eng()], &[], &[], true);
    p.clear();
}

fn stream(t: TsStreamType, lang: &str) -> StreamSummary {
    StreamSummary { stream_type: t, language_code: lang.to_string(), description: format!("{:?}", t) }
}

fn summary(name: &str, secs: u64, loops: bool, streams: Vec<StreamSummary>) -> PlaylistSummary {
    PlaylistSummary { name: name.to_string(), total_length: secs, has_loops: loops, streams }
}

#[test]
fn disc_main_feature() {
    let _ = Bdmv;
    let pls = vec![
        summary("00001.mpls", 7200, false, vec![stream(TsStreamType::HevcVideo, "eng"), stream(TsStreamType::DtsHdMasterAudio, "eng")]),
        summary("00002.mpls", 7200, true, vec![stream(TsStreamType::HevcVideo, ""), stream(TsStreamType::Ac3Audio, ""), stream(TsStreamType::Ac3Audio, "")]),
        summary("00003.mpls", 7300, false, vec![stream(TsStreamType::AvcVideo, ""), stream(TsStreamType::LpcmAudio, "")]),
        summary("00004.mpls", 600, false, vec![stream(TsStreamType::AvcVideo, ""), stream(TsStreamType::LpcmAudio, ""), stream(TsStreamType::Subtitle, "")]),
    ];
    assert_eq!(find_best_playlist(&pls).unwrap().name, "00003.mpls");
    assert!(find_best_playlist(&pls[1..2]).is_none());
    assert!(!check_duration(&pls[3]));
    assert!(check_duration(&summary("x", 3600, false, vec![])));
    assert!(check_duration(&summary("x", 21600, false, vec![])));
    assert!(!check_duration(&summary("x", 21601, false, vec![])));
    assert!(!check_video_audio(&summary("x", 7200, false, vec![])));
    assert!(!check_video_audio(&summary("x", 7200, false, vec![stream(TsStreamType::AvcVideo, "")])));
    assert_eq!(video_audio(TsStreamType::Vc1Video), (true, false));
    assert_eq!(video_audio(TsStreamType::Ac3TrueHdAudio), (false, true));
    assert_eq!(video_audio(TsStreamType::Subtitle), (false, false));
}

#[test]
fn disc_streams() {
    let s = stream(TsStreamType::Ac3PlusAudio, "fr");
    assert_eq!(s.number(), None);
    assert_eq!(s.kind(), Some(TrackKind::Audio));
    assert_eq!(s.lang(), Some(Language::Fra as u16));
    assert_eq!(s.field(TrackField::Codec), Some("A_EAC3"));
    assert_eq!(s.field(TrackField::Name), Some("Ac3PlusAudio"));
    let g = stream(TsStreamType::PresentationGraphics, "");
    assert_eq!(g.kind(), Some(TrackKind::Subtitles));
    assert_eq!(g.field(TrackField::Codec), Some("S_HDMV/PGS"));
    assert_eq!(stream(TsStreamType::AvcVideo, "").kind(), None);
    assert_eq!(stream(TsStreamType::AvcVideo, "").field(TrackField::Codec), None);
}

#[test]
fn matroska_tracks() {
    let t = MkvTrack {
        track_number: 3,
        track_type: MkvTrackType::Subtitle,
        language_bcp47: Some("pt-BR".to_string()),
        codec_id: "S_TEXT/UTF8".to_string(),
        name: None,
    };
    assert_eq!(t.number(), Some(2));
    assert_eq!(t.kind(), Some(TrackKind::Subtitles));
    assert_eq!(t.lang(), Some(Language::Por as u16));
    assert_eq!(t.field(TrackField::Codec), Some("S_TEXT/UTF8"));
    assert_eq!(t.field(TrackField::Name), None);
    assert!(Mkv::accepts(true, Some("MKV")));
    assert!(!Mkv::accepts(false, Some("mkv")));
    assert!(!Mkv::accepts(true, Some("mp4")));
    assert!(!Mkv::accepts(true, None));
}

#[test]
fn score_does_not_depend_on_preferences() {
    let small = playlist(vec![track(0, "video", "AVC", "eng", None, None), track(1, "audio", "AC-3", "fre", None, None)], 2);
    let mut a = ctx(&["dts:100"], &["x:-3"]);
    let mut b = PeelCtx::new(vec![], vec![], vec![], true);
    for c in [&mut a, &mut b] {
        assert_eq!(c.offer(&small), Some(true));
        assert_eq!(c.offer(&movie()), Some(true));
        assert_eq!(c.offer(&small), Some(false));
    }
}

#[test]
fn skipping_commentary_is_removing_it() {
    let prefs_codecs = || vec![TrackBuff::parse("dts:1").unwrap()];
    let prefs_names = || vec![TrackBuff::parse("commentary:5").unwrap()];
    let mut skipping = PeelCtx::new(vec![eng()], prefs_codecs(), prefs_names(), true);
    assert!(skipping.take(&movie()));
    let mut without = movie();
    without.tracks.retain(|t| !t.is_commentary());
    let mut keeping = PeelCtx::new(vec![eng()], prefs_codecs(), prefs_names(), false);
    assert!(keeping.take(&without));
    assert_eq!(sorted_ids(skipping.track_args()), sorted_ids(keeping.track_args()));
}

#[test]
fn upserts_keep_first_of_best() {
    let codecs = vec![TrackBuff::parse("dts:3").unwrap(), TrackBuff::parse("ac-3:1").unwrap()];
    let mut k = TrackKindCtx::new();
    for t in [
        track(1, "audio", "AC-3", "eng", None, None),
        track(2, "audio", "DTS", "eng", None, None),
        track(3, "audio", "AAC", "eng", None, None),
        track(4, "audio", "DTS", "eng", None, None),
        track(5, "audio", "AC-3", "fre", None, None),
    ] {
        k.upsert(&[eng()], &codecs, &[], &t);
    }
    assert_eq!(k.get_ids().unwrap(), "2");
}

#[test]
fn preference_order_does_not_matter() {
    let forward = vec![TrackBuff::parse("dts:3").unwrap(), TrackBuff::parse("_dts:-4").unwrap()];
    let backward = vec![TrackBuff::parse("_dts:-4").unwrap(), TrackBuff::parse("dts:3").unwrap()];
    let mut a = PeelCtx::new(vec![eng()], forward, vec![], true);
    let mut b = PeelCtx::new(vec![eng()], backward, vec![], true);
    assert!(a.take(&movie()));
    assert!(b.take(&movie()));
    let args_a = sorted_ids(a.track_args());
    assert_eq!(args_a, sorted_ids(b.track_args()));
    assert_eq!(args_a[4], "1");
}

#[test]
fn reloading_forgets_earlier_choice() {
    let mut once = ctx(&[], &[]);
    assert!(once.take(&movie()));
    let mut twice = ctx(&[], &[]);
    let other = playlist(vec![track(9, "audio", "AAC", "deu", None, None)], 2);
    assert!(twice.take(&other));
    assert!(twice.take(&movie()));
    assert_eq!(sorted_ids(once.track_args()), sorted_ids(twice.track_args()));
}

/// The options with each list of ids sorted: the order of a list follows a hash map's walk.
fn sorted_ids(args: Vec<String>) -> Vec<String> {
    args.into_iter()
        .map(|a| {
            let mut ids: Vec<&str> = a.split(',').collect();
            ids.sort();
            ids.join(",")
        })
        .collect()
}

#[test]
fn begin_makes_a_used_context_fresh() {
    let small = playlist(vec![track(0, "video", "AVC", "eng", None, None)], 2);
    let mut used = ctx(&["dts:10"], &[]);
    used.begin();
    assert_eq!(used.offer(&movie()), Some(true));
    let _ = used.track_args();
    used.begin();
    let mut fresh = ctx(&["dts:10"], &[]);
    fresh.begin();
    for p in [&small, &movie(), &small] {
        assert_eq!(used.offer(p), fresh.offer(p));
    }
    assert_eq!(sorted_ids(used.track_args()), sorted_ids(fresh.track_args()));
}
