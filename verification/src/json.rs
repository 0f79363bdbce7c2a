//! What `mkvmerge -J` reports of a file or a playlist, as the selection reads it.

use vstd::prelude::*;
use crate::text::{opt_string, opt_text, same_text};
use crate::util::{primary_lang, tag_language, LangId};

verus! {

/// The Matroska codec id for a codec name that `mkvmerge` reports; unknown names are kept.
pub open spec fn codec_id_of(codec: Seq<char>) -> Seq<char> {
    if codec == "DTS-HD Master Audio"@ {
        "A_DTS"@
    } else if codec == "E-AC-3"@ {
        "A_EAC3"@
    } else if codec == "AC-3"@ {
        "A_AC3"@
    } else if codec == "FLAC"@ {
        "A_FLAC"@
    } else if codec == "Timed Text"@ {
        "S_TEXT/UTF8"@
    } else if codec == "HDMV PGS"@ {
        "S_HDMV/PGS"@
    } else {
        codec
    }
}

/// The Matroska codec id for a codec name that `mkvmerge` reports; unknown names are kept.
pub fn codec_id(codec: &str) -> (r: &str)
    ensures
        r@ == codec_id_of(codec@),
{
    if same_text(codec, "DTS-HD Master Audio") {
        "A_DTS"
    } else if same_text(codec, "E-AC-3") {
        "A_EAC3"
    } else if same_text(codec, "AC-3") {
        "A_AC3"
    } else if same_text(codec, "FLAC") {
        "A_FLAC"
    } else if same_text(codec, "Timed Text") {
        "S_TEXT/UTF8"
    } else if same_text(codec, "HDMV PGS") {
        "S_HDMV/PGS"
    } else {
        codec
    }
}

/// Law of the codec ids: mapping a codec name that is already a Matroska codec id leaves it
/// as it is, so mapping twice is mapping once.
pub proof fn lemma_codec_id_idempotent(codec: Seq<char>)
    ensures
        codec_id_of(codec_id_of(codec)) == codec_id_of(codec),
{
    reveal_strlit("DTS-HD Master Audio");
    reveal_strlit("E-AC-3");
    reveal_strlit("AC-3");
    reveal_strlit("FLAC");
    reveal_strlit("Timed Text");
    reveal_strlit("HDMV PGS");
    reveal_strlit("A_DTS");
    reveal_strlit("A_EAC3");
    reveal_strlit("A_AC3");
    reveal_strlit("A_FLAC");
    reveal_strlit("S_TEXT/UTF8");
    reveal_strlit("S_HDMV/PGS");
    let names = seq!["DTS-HD Master Audio"@, "E-AC-3"@, "AC-3"@, "FLAC"@, "Timed Text"@, "HDMV PGS"@];
    let ids = seq!["A_DTS"@, "A_EAC3"@, "A_AC3"@, "A_FLAC"@, "S_TEXT/UTF8"@, "S_HDMV/PGS"@];
    assert forall|i: int, j: int| 0 <= i < 6 && 0 <= j < 6 implies #[trigger] names[i] != #[trigger] ids[j] by {
        assert(names[i][0] != ids[j][0] || names[i][1] != ids[j][1]);
    }
    assert(names[0] != ids[0] && names[1] != ids[0] && names[2] != ids[0] && names[3] != ids[0] && names[4] != ids[0] && names[5] != ids[0]);
}

/// Container properties: the playlist's length in nanoseconds, if reported.
#[derive(Debug)]
pub struct CtrPropsInfo {
    pub playlist_duration: Option<u64>,
}

/// What is reported of the container.
#[derive(Debug)]
pub struct CtrInfo {
    pub properties: CtrPropsInfo,
    pub recognized: bool,
    pub supported: bool,
}

/// Track properties.
#[derive(Debug)]
pub struct TrackPropsInfo {
    pub codec_id: Option<String>,
    pub language: Option<String>,
    pub language_ietf: Option<String>,
    pub track_name: Option<String>,
    pub flag_commentary: Option<bool>,
}

/// A track as reported: its id, its type (`video`, `audio`, `subtitles`, ...), its codec
/// name and its properties.
#[derive(Debug)]
pub struct TrackInfo {
    pub id: u16,
    pub kind: Option<String>,
    pub codec: Option<String>,
    pub properties: TrackPropsInfo,
}

/// The codec of a track: its codec id, else the id for its codec name.
pub open spec fn track_codec(t: TrackInfo) -> Option<Seq<char>> {
    match t.properties.codec_id {
        Some(c) => Some(c@),
        None => match t.codec {
            Some(c) => Some(codec_id_of(c@)),
            None => None,
        },
    }
}

/// The language of a track: from its IETF tag, else from its plain language tag.
pub open spec fn track_lang(t: TrackInfo) -> Option<LangId> {
    let ietf = match t.properties.language_ietf {
        Some(x) => tag_language(x@),
        None => None,
    };
    if ietf is Some {
        ietf
    } else {
        match t.properties.language {
            Some(x) => tag_language(x@),
            None => None,
        }
    }
}

/// Whether a track is flagged as commentary (unflagged tracks are not).
pub open spec fn track_is_commentary(t: TrackInfo) -> bool {
    match t.properties.flag_commentary {
        Some(b) => b,
        None => false,
    }
}

impl TrackInfo {
    pub fn id(&self) -> (r: u16)
        ensures
            r == self.id,
    {
        self.id
    }

    pub fn kind(&self) -> (r: Option<&str>)
        ensures
            opt_text(r) == opt_string(self.kind),
    {
        match &self.kind {
            Some(k) => Some(k.as_str()),
            None => None,
        }
    }

    /// The codec id, else the Matroska id for the codec name.
    pub fn codec(&self) -> (r: Option<&str>)
        ensures
            opt_text(r) == track_codec(*self),
    {
        match &self.properties.codec_id {
            Some(c) => Some(c.as_str()),
            None => match &self.codec {
                Some(c) => Some(codec_id(c.as_str())),
                None => None,
            },
        }
    }

    /// The language, from the IETF tag if it names one, else from the plain tag.
    pub fn lang(&self) -> (r: Option<LangId>)
        ensures
            r == track_lang(*self),
    {
        let ietf = match &self.properties.language_ietf {
            Some(x) => primary_lang(x.as_str()),
            None => None,
        };
        let plain = match &self.properties.language {
            Some(x) => primary_lang(x.as_str()),
            None => None,
        };
        match ietf {
            Some(l) => Some(l),
            None => plain,
        }
    }

    pub fn name(&self) -> (r: Option<&str>)
        ensures
            opt_text(r) == opt_string(self.properties.track_name),
    {
        match &self.properties.track_name {
            Some(n) => Some(n.as_str()),
            None => None,
        }
    }

    /// Whether the track is flagged as commentary; unflagged tracks are not.
    pub fn is_commentary(&self) -> (r: bool)
        ensures
            r == track_is_commentary(*self),
    {
        match self.properties.flag_commentary {
            Some(b) => b,
            None => false,
        }
    }
}

/// What `mkvmerge -J` reports of a file: its container and its tracks.
#[derive(Debug)]
pub struct PlaylistInfo {
    pub container: CtrInfo,
    pub tracks: Vec<TrackInfo>,
}

/// The `Duration` of `nanos` nanoseconds.
pub uninterp spec fn duration_of_nanos(nanos: u64) -> std::time::Duration;

/// `std::time::Duration::from_nanos`. Trusted: the result is the named `duration_of_nanos`
/// of the argument.
#[verifier::external_body]
fn duration_from_nanos(nanos: u64) -> (r: std::time::Duration)
    ensures
        r == duration_of_nanos(nanos),
{
    std::time::Duration::from_nanos(nanos)
}

impl PlaylistInfo {
    pub fn tracks(&self) -> (r: &[TrackInfo])
        ensures
            r@ == self.tracks@,
    {
        self.tracks.as_slice()
    }

    /// The playlist's length, if reported.
    pub fn duration(&self) -> (r: Option<std::time::Duration>)
        ensures
            r == match self.container.properties.playlist_duration {
                Some(n) => Some(duration_of_nanos(n)),
                None => None,
            },
    {
        match self.container.properties.playlist_duration {
            Some(n) => Some(duration_from_nanos(n)),
            None => None,
        }
    }

    pub fn recognized(&self) -> (r: bool)
        ensures
            r == self.container.recognized,
    {
        self.container.recognized
    }

    pub fn supported(&self) -> (r: bool)
        ensures
            r == self.container.supported,
    {
        self.container.supported
    }
}

} // verus!
