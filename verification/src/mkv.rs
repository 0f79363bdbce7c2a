//! Matroska files: their tracks as the container describes them.

use vstd::prelude::*;
use crate::peel::{TrackField, TrackKind};
use crate::text::{eq_ignore_ascii_case, opt_string, same_text_ignore_ascii_case};
use crate::util::{primary_lang, tag_language, LangId};

verus! {

/// The type of a Matroska track.
#[derive(Debug, Clone, Copy, PartialEq, Eq)]
pub enum MkvTrackType {
    Unknown,
    Video,
    Audio,
    Complex,
    Logo,
    Subtitle,
    Buttons,
    Control,
    Metadata,
}

/// A track entry of a Matroska file: its number (never zero), its type, its BCP 47 language,
/// its codec id and its name.
#[derive(Debug)]
pub struct MkvTrack {
    pub track_number: u64,
    pub track_type: MkvTrackType,
    pub language_bcp47: Option<String>,
    pub codec_id: String,
    pub name: Option<String>,
}

impl MkvTrack {
    /// The track's id for `mkvmerge`: its number, as `u16`, minus one.
    pub fn number(&self) -> (r: Option<u16>)
        requires
            self.track_number as u16 != 0,
        ensures
            r == Some(((self.track_number as u16) - 1) as u16),
    {
        let n = self.track_number as u16;
        Some(n - 1)
    }

    /// Audio and subtitle tracks are chosen per language; other tracks are not.
    pub fn kind(&self) -> (r: Option<TrackKind>)
        ensures
            r == match self.track_type {
                MkvTrackType::Audio => Some(TrackKind::Audio),
                MkvTrackType::Subtitle => Some(TrackKind::Subtitles),
                _ => None,
            },
    {
        match self.track_type {
            MkvTrackType::Audio => Some(TrackKind::Audio),
            MkvTrackType::Subtitle => Some(TrackKind::Subtitles),
            _ => None,
        }
    }

    /// The language of the track's BCP 47 tag.
    pub fn lang(&self) -> (r: Option<LangId>)
        ensures
            r == match self.language_bcp47 {
                Some(t) => tag_language(t@),
                None => None,
            },
    {
        match &self.language_bcp47 {
            Some(t) => primary_lang(t.as_str()),
            None => None,
        }
    }

    /// The codec id, or the name if the track has one.
    pub fn field(&self, field: TrackField) -> (r: Option<&str>)
        ensures
            match field {
                TrackField::Codec => r matches Some(c) && c@ == self.codec_id@,
                TrackField::Name => match r {
                    Some(n) => opt_string(self.name) == Some(n@),
                    None => self.name is None,
                },
            },
    {
        match field {
            TrackField::Codec => Some(self.codec_id.as_str()),
            TrackField::Name => match &self.name {
                Some(n) => Some(n.as_str()),
                None => None,
            },
        }
    }
}

/// A Matroska file as a source.
pub struct Mkv;

impl Mkv {
    /// A source entry is a Matroska file when it is a file whose extension is `mkv`
    /// (ASCII case ignored).
    pub fn accepts(is_file: bool, ext: Option<&str>) -> (r: bool)
        ensures
            r == (is_file && match ext {
                Some(e) => eq_ignore_ascii_case(e@, "mkv"@),
                None => false,
            }),
    {
        is_file && match ext {
            Some(e) => same_text_ignore_ascii_case(e, "mkv"),
            None => false,
        }
    }
}

} // verus!
