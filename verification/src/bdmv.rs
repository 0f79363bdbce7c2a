//! Blu-ray folders: the streams of a playlist as the disc describes them, and the choice of
//! the main playlist.

use vstd::prelude::*;
use crate::peel::{TrackField, TrackKind};
use crate::util::{primary_lang, tag_language, LangId};

verus! {

/// The type of an elementary stream of a Blu-ray playlist.
#[derive(Debug, Clone, Copy, PartialEq, Eq)]
pub enum TsStreamType {
    Unknown,
    Mpeg1Video,
    Mpeg2Video,
    AvcVideo,
    MvcVideo,
    HevcVideo,
    Vc1Video,
    Mpeg1Audio,
    Mpeg2Audio,
    Mpeg2AacAudio,
    Mpeg4AacAudio,
    LpcmAudio,
    Ac3Audio,
    Ac3PlusAudio,
    Ac3PlusSecondaryAudio,
    Ac3TrueHdAudio,
    DtsAudio,
    DtsHdAudio,
    DtsHdSecondaryAudio,
    DtsHdMasterAudio,
    PresentationGraphics,
    InteractiveGraphics,
    Subtitle,
}

/// Whether a stream type is a video stream.
pub open spec fn is_video(t: TsStreamType) -> bool {
    match t {
        TsStreamType::Mpeg1Video | TsStreamType::Mpeg2Video | TsStreamType::AvcVideo
        | TsStreamType::MvcVideo | TsStreamType::HevcVideo | TsStreamType::Vc1Video => true,
        _ => false,
    }
}

/// Whether a stream type is an audio stream.
pub open spec fn is_audio(t: TsStreamType) -> bool {
    match t {
        TsStreamType::Mpeg1Audio | TsStreamType::Mpeg2Audio | TsStreamType::Mpeg2AacAudio
        | TsStreamType::Mpeg4AacAudio | TsStreamType::LpcmAudio | TsStreamType::Ac3Audio
        | TsStreamType::Ac3PlusAudio | TsStreamType::Ac3PlusSecondaryAudio
        | TsStreamType::Ac3TrueHdAudio | TsStreamType::DtsAudio | TsStreamType::DtsHdAudio
        | TsStreamType::DtsHdSecondaryAudio | TsStreamType::DtsHdMasterAudio => true,
        _ => false,
    }
}

/// Whether a stream type is a subtitle stream.
pub open spec fn is_subtitle(t: TsStreamType) -> bool {
    t == TsStreamType::PresentationGraphics || t == TsStreamType::Subtitle
}

/// Whether a stream is video, and whether it is audio.
pub fn video_audio(kind: TsStreamType) -> (r: (bool, bool))
    ensures
        r == (is_video(kind), is_audio(kind)),
{
    match kind {
        TsStreamType::Mpeg1Video => (true, false),
        TsStreamType::Mpeg2Video => (true, false),
        TsStreamType::AvcVideo => (true, false),
        TsStreamType::MvcVideo => (true, false),
        TsStreamType::HevcVideo => (true, false),
        TsStreamType::Vc1Video => (true, false),
        TsStreamType::Mpeg1Audio => (false, true),
        TsStreamType::Mpeg2Audio => (false, true),
        TsStreamType::Mpeg2AacAudio => (false, true),
        TsStreamType::Mpeg4AacAudio => (false, true),
        TsStreamType::LpcmAudio => (false, true),
        TsStreamType::Ac3Audio => (false, true),
        TsStreamType::Ac3PlusAudio => (false, true),
        TsStreamType::Ac3PlusSecondaryAudio => (false, true),
        TsStreamType::Ac3TrueHdAudio => (false, true),
        TsStreamType::DtsAudio => (false, true),
        TsStreamType::DtsHdAudio => (false, true),
        TsStreamType::DtsHdSecondaryAudio => (false, true),
        TsStreamType::DtsHdMasterAudio => (false, true),
        _ => (false, false),
    }
}

/// The Matroska codec id of a stream type, for the audio and subtitle types.
pub open spec fn stream_codec_id(t: TsStreamType) -> Option<Seq<char>> {
    match t {
        TsStreamType::Mpeg1Audio => Some("A_MPEG/L1"@),
        TsStreamType::Mpeg2Audio => Some("A_MPEG/L2"@),
        TsStreamType::Mpeg2AacAudio => Some("A_AAC/MPEG2"@),
        TsStreamType::Mpeg4AacAudio => Some("A_AAC/MPEG4"@),
        TsStreamType::LpcmAudio => Some("A_PCM"@),
        TsStreamType::Ac3Audio => Some("A_AC3"@),
        TsStreamType::Ac3PlusAudio => Some("A_EAC3"@),
        TsStreamType::Ac3PlusSecondaryAudio => Some("A_EAC3"@),
        TsStreamType::Ac3TrueHdAudio => Some("A_TRUEHD"@),
        TsStreamType::DtsAudio => Some("A_DTS"@),
        TsStreamType::DtsHdAudio => Some("A_DTS"@),
        TsStreamType::DtsHdSecondaryAudio => Some("A_DTS"@),
        TsStreamType::DtsHdMasterAudio => Some("A_DTS"@),
        TsStreamType::PresentationGraphics => Some("S_HDMV/PGS"@),
        TsStreamType::Subtitle => Some("S_TEXT/UTF8"@),
        _ => None,
    }
}

/// A stream of a playlist: its type, its language code and its description.
#[derive(Debug)]
pub struct StreamSummary {
    pub stream_type: TsStreamType,
    pub language_code: String,
    pub description: String,
}

impl StreamSummary {
    /// Streams of a disc carry no track number.
    pub fn number(&self) -> (r: Option<u16>)
        ensures
            r is None,
    {
        None
    }

    /// Audio and subtitle streams are chosen per language; other streams are not.
    pub fn kind(&self) -> (r: Option<TrackKind>)
        ensures
            r == if is_audio(self.stream_type) {
                Some(TrackKind::Audio)
            } else if is_subtitle(self.stream_type) {
                Some(TrackKind::Subtitles)
            } else {
                None
            },
    {
        match self.stream_type {
            TsStreamType::Mpeg1Audio => Some(TrackKind::Audio),
            TsStreamType::Mpeg2Audio => Some(TrackKind::Audio),
            TsStreamType::Mpeg2AacAudio => Some(TrackKind::Audio),
            TsStreamType::Mpeg4AacAudio => Some(TrackKind::Audio),
            TsStreamType::LpcmAudio => Some(TrackKind::Audio),
            TsStreamType::Ac3Audio => Some(TrackKind::Audio),
            TsStreamType::Ac3PlusAudio => Some(TrackKind::Audio),
            TsStreamType::Ac3PlusSecondaryAudio => Some(TrackKind::Audio),
            TsStreamType::Ac3TrueHdAudio => Some(TrackKind::Audio),
            TsStreamType::DtsAudio => Some(TrackKind::Audio),
            TsStreamType::DtsHdAudio => Some(TrackKind::Audio),
            TsStreamType::DtsHdSecondaryAudio => Some(TrackKind::Audio),
            TsStreamType::DtsHdMasterAudio => Some(TrackKind::Audio),
            TsStreamType::PresentationGraphics => Some(TrackKind::Subtitles),
            TsStreamType::Subtitle => Some(TrackKind::Subtitles),
            _ => None,
        }
    }

    /// The language of the stream's language code.
    pub fn lang(&self) -> (r: Option<LangId>)
        ensures
            r == tag_language(self.language_code@),
    {
        primary_lang(self.language_code.as_str())
    }

    /// The codec id of the stream, or its description.
    pub fn field(&self, field: TrackField) -> (r: Option<&str>)
        ensures
            match field {
                TrackField::Codec => match r {
                    Some(c) => stream_codec_id(self.stream_type) == Some(c@),
                    None => stream_codec_id(self.stream_type) is None,
                },
                TrackField::Name => r matches Some(d) && d@ == self.description@,
            },
    {
        match field {
            TrackField::Codec => {
                match self.stream_type {
                    TsStreamType::Mpeg1Audio => Some("A_MPEG/L1"),
                    TsStreamType::Mpeg2Audio => Some("A_MPEG/L2"),
                    TsStreamType::Mpeg2AacAudio => Some("A_AAC/MPEG2"),
                    TsStreamType::Mpeg4AacAudio => Some("A_AAC/MPEG4"),
                    TsStreamType::LpcmAudio => Some("A_PCM"),
                    TsStreamType::Ac3Audio => Some("A_AC3"),
                    TsStreamType::Ac3PlusAudio => Some("A_EAC3"),
                    TsStreamType::Ac3PlusSecondaryAudio => Some("A_EAC3"),
                    TsStreamType::Ac3TrueHdAudio => Some("A_TRUEHD"),
                    TsStreamType::DtsAudio => Some("A_DTS"),
                    TsStreamType::DtsHdAudio => Some("A_DTS"),
                    TsStreamType::DtsHdSecondaryAudio => Some("A_DTS"),
                    TsStreamType::DtsHdMasterAudio => Some("A_DTS"),
                    TsStreamType::PresentationGraphics => Some("S_HDMV/PGS"),
                    TsStreamType::Subtitle => Some("S_TEXT/UTF8"),
                    _ => None,
                }
            },
            TrackField::Name => Some(self.description.as_str()),
        }
    }
}

/// A playlist of a Blu-ray disc: its name, its length in whole seconds (the reported length
/// converted with `as u64`), whether it loops, and its streams.
#[derive(Debug)]
pub struct PlaylistSummary {
    pub name: String,
    pub total_length: u64,
    pub has_loops: bool,
    pub streams: Vec<StreamSummary>,
}

/// A main feature lasts between one and six hours.
pub open spec fn duration_ok(pls: PlaylistSummary) -> bool {
    3600 <= pls.total_length && pls.total_length <= 21600
}

/// Whether the playlist lasts between one and six hours.
pub fn check_duration(pls: &PlaylistSummary) -> (r: bool)
    ensures
        r == duration_ok(*pls),
{
    let secs = pls.total_length;
    let min: u64 = 3600;
    let max: u64 = 6 * 3600;
    min <= secs && secs <= max
}

/// A main feature has a video stream and an audio stream.
pub open spec fn has_video_and_audio(streams: Seq<StreamSummary>) -> bool {
    (exists|i: int| 0 <= i < streams.len() && is_video(#[trigger] streams[i].stream_type)) && (
    exists|i: int| 0 <= i < streams.len() && is_audio(#[trigger] streams[i].stream_type))
}

/// Whether the playlist has both a video stream and an audio stream.
pub fn check_video_audio(pls: &PlaylistSummary) -> (r: bool)
    ensures
        r == has_video_and_audio(pls.streams@),
{
    let mut video = false;
    let mut audio = false;
    let mut i: usize = 0;
    while i < pls.streams.len()
        invariant
            i <= pls.streams@.len(),
            video == exists|j: int| 0 <= j < i && is_video(#[trigger] pls.streams@[j].stream_type),
            audio == exists|j: int| 0 <= j < i && is_audio(#[trigger] pls.streams@[j].stream_type),
        decreases pls.streams@.len() - i,
    {
        let (v, a) = video_audio(pls.streams[i].stream_type);
        video = video || v;
        audio = audio || a;
        i = i + 1;
    }
    video && audio
}

/// A playlist that can be the main feature: no loops, a plausible length, video and audio.
pub open spec fn is_candidate(pls: PlaylistSummary) -> bool {
    !pls.has_loops && duration_ok(pls) && has_video_and_audio(pls.streams@)
}

/// The index of the main feature: among the candidates, one with the most streams, the last
/// such one when several have as many.
pub open spec fn best_playlist(pls: Seq<PlaylistSummary>) -> Option<int>
    decreases pls.len(),
{
    if pls.len() == 0 {
        None
    } else {
        let prev = best_playlist(pls.drop_last());
        let i = pls.len() - 1;
        if !is_candidate(pls.last()) {
            prev
        } else {
            match prev {
                None => Some(i),
                Some(j) => if pls[j].streams.len() <= pls.last().streams.len() {
                    Some(i)
                } else {
                    Some(j)
                },
            }
        }
    }
}

/// The main feature among the playlists of a disc.
pub fn find_best_playlist(playlists: &[PlaylistSummary]) -> (r: Option<&PlaylistSummary>)
    ensures
        match best_playlist(playlists@) {
            None => r is None,
            Some(i) => 0 <= i < playlists@.len() && r == Some(&playlists@[i]),
        },
{
    let mut best: Option<usize> = None;
    let mut i: usize = 0;
    proof {
        assert(playlists@.take(0) =~= Seq::<PlaylistSummary>::empty());
    }
    while i < playlists.len()
        invariant
            i <= playlists@.len(),
            match best_playlist(playlists@.take(i as int)) {
                None => best is None,
                Some(j) => best == Some(j as usize) && 0 <= j < i,
            },
        decreases playlists@.len() - i,
    {
        let pls = &playlists[i];
        proof {
            assert(playlists@.take(i + 1).drop_last() =~= playlists@.take(i as int));
            assert(playlists@.take(i + 1).last() == playlists@[i as int]);
            if let Some(j) = best {
                assert(playlists@.take(i + 1)[j as int] == playlists@[j as int]);
            }
        }
        if !pls.has_loops && check_duration(pls) && check_video_audio(pls) {
            match best {
                None => {
                    best = Some(i);
                },
                Some(j) => {
                    if playlists[j].streams.len() <= pls.streams.len() {
                        best = Some(i);
                    }
                },
            }
        }
        i = i + 1;
    }
    proof {
        assert(playlists@.take(i as int) =~= playlists@);
    }
    match best {
        None => None,
        Some(j) => Some(&playlists[j]),
    }
}

/// Law of the main feature: there is none exactly when no playlist is a candidate; the one
/// found is a candidate with at least as many streams as every candidate, and more streams
/// than every candidate after it.
pub proof fn lemma_best_playlist_is_largest(pls: Seq<PlaylistSummary>)
    ensures
        best_playlist(pls) is None <==> forall|j: int| 0 <= j < pls.len() ==> !is_candidate(
            #[trigger] pls[j],
        ),
        best_playlist(pls) matches Some(i) ==> {
            &&& 0 <= i < pls.len()
            &&& is_candidate(pls[i])
            &&& forall|j: int|
                0 <= j < pls.len() && is_candidate(#[trigger] pls[j]) ==> pls[j].streams.len()
                    <= pls[i].streams.len() && (i < j ==> pls[j].streams.len()
                    < pls[i].streams.len())
        },
    decreases pls.len(),
{
    if pls.len() > 0 {
        let pre = pls.drop_last();
        lemma_best_playlist_is_largest(pre);
        assert forall|j: int| 0 <= j < pre.len() implies #[trigger] pls[j] == pre[j] by {}
    }
}

/// Law of stream types: the video streams are exactly the MPEG-1, MPEG-2, AVC, MVC, HEVC and
/// VC-1 video codings; the audio streams are exactly the MPEG-1, MPEG-2, AAC, LPCM, AC-3,
/// E-AC-3, TrueHD and DTS codings; no stream is both.
pub proof fn lemma_stream_kinds(t: TsStreamType)
    ensures
        is_video(t) <==> (t == TsStreamType::Mpeg1Video || t == TsStreamType::Mpeg2Video || t
            == TsStreamType::AvcVideo || t == TsStreamType::MvcVideo || t == TsStreamType::HevcVideo
            || t == TsStreamType::Vc1Video),
        is_audio(t) <==> (t == TsStreamType::Mpeg1Audio || t == TsStreamType::Mpeg2Audio || t
            == TsStreamType::Mpeg2AacAudio || t == TsStreamType::Mpeg4AacAudio || t
            == TsStreamType::LpcmAudio || t == TsStreamType::Ac3Audio || t
            == TsStreamType::Ac3PlusAudio || t == TsStreamType::Ac3PlusSecondaryAudio || t
            == TsStreamType::Ac3TrueHdAudio || t == TsStreamType::DtsAudio || t
            == TsStreamType::DtsHdAudio || t == TsStreamType::DtsHdSecondaryAudio || t
            == TsStreamType::DtsHdMasterAudio),
        !(is_video(t) && is_audio(t)),
{
}

/// Law of the main feature: a disc with a playlist that does not loop, lasts between one and
/// six hours, and has a stream of a video coding (MPEG-1, MPEG-2, AVC, MVC, HEVC or VC-1)
/// and an audio stream has a main feature, and it is such a playlist.
pub proof fn lemma_playable_playlist_found(pls: Seq<PlaylistSummary>, k: int, v: int, a: int)
    requires
        0 <= k < pls.len(),
        !pls[k].has_loops,
        3600 <= pls[k].total_length <= 21600,
        0 <= v < pls[k].streams@.len(),
        0 <= a < pls[k].streams@.len(),
        ({
            let t = pls[k].streams@[v].stream_type;
            t == TsStreamType::Mpeg1Video || t == TsStreamType::Mpeg2Video || t
                == TsStreamType::AvcVideo || t == TsStreamType::MvcVideo || t
                == TsStreamType::HevcVideo || t == TsStreamType::Vc1Video
        }),
        is_audio(pls[k].streams@[a].stream_type),
    ensures
        best_playlist(pls) matches Some(i) && 0 <= i < pls.len() && !pls[i].has_loops
            && 3600 <= pls[i].total_length <= 21600,
{
    lemma_stream_kinds(pls[k].streams@[v].stream_type);
    assert(is_video(pls[k].streams@[v].stream_type));
    assert(is_candidate(pls[k]));
    lemma_best_playlist_is_largest(pls);
}

/// A Blu-ray folder as a source.
pub struct Bdmv;

} // verus!
