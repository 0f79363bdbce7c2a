//! Choosing, per language, the audio and subtitle track to keep, and choosing among the
//! playlists of a disc the one to remux.

use vstd::prelude::*;
use std::collections::HashMap;
use crate::args::{ci_regex_is_match, TrackBuff};
use crate::json::{track_codec, track_is_commentary, track_lang, PlaylistInfo, TrackInfo};
use crate::text::{
    decimal, eq_ignore_ascii_case, opt_string, opt_text, push_decimal, same_text,
    same_text_ignore_ascii_case, string_of,
};
use crate::util::{tag_language, LangId};

verus! {

broadcast use vstd::std_specs::hash::group_hash_axioms;

/// The kinds of tracks that are chosen per language.
#[derive(Debug, Clone, Copy, PartialEq, Eq)]
pub enum TrackKind {
    Audio,
    Subtitles,
}

/// The fields of a track that preferences are matched against.
#[derive(Debug, Clone, Copy, PartialEq, Eq)]
pub enum TrackField {
    Codec,
    Name,
}

/// What the preferences `buffs` give to a track whose field reads `value`: the sum of the
/// scores of the expressions that match it (nothing when the field is absent).
pub open spec fn buff_sum(value: Option<Seq<char>>, buffs: Seq<TrackBuff>) -> int
    decreases buffs.len(),
{
    match value {
        None => 0,
        Some(v) => if buffs.len() == 0 {
            0
        } else {
            buff_sum(value, buffs.drop_last()) + if ci_regex_is_match(
                buffs.last().pattern_text(),
                v,
            ) {
                buffs.last().score() as int
            } else {
                0
            }
        },
    }
}

/// Whether adding the scores in order never leaves `i16`.
pub open spec fn buff_fits(value: Option<Seq<char>>, buffs: Seq<TrackBuff>) -> bool {
    forall|k: int|
        0 <= k <= buffs.len() ==> i16::MIN <= #[trigger] buff_sum(value, buffs.take(k))
            <= i16::MAX
}

/// The sum of the scores of the preferences whose expression matches `value`.
fn buff_all(value: Option<&str>, buffs: &[TrackBuff]) -> (r: i16)
    requires
        buff_fits(opt_text(value), buffs@),
    ensures
        r == buff_sum(opt_text(value), buffs@),
{
    let mut buff: i16 = 0;
    if let Some(v) = value {
        let mut i: usize = 0;
        proof {
            assert(buffs@.take(0) =~= Seq::<TrackBuff>::empty());
        }
        while i < buffs.len()
            invariant
                value == Some(v),
                i <= buffs@.len(),
                buff_fits(opt_text(value), buffs@),
                buff == buff_sum(opt_text(value), buffs@.take(i as int)),
            decreases buffs@.len() - i,
        {
            proof {
                assert(buffs@.take(i + 1).drop_last() =~= buffs@.take(i as int));
                assert(i16::MIN <= buff_sum(opt_text(value), buffs@.take(i + 1)) <= i16::MAX);
            }
            if buffs[i].is_match(v) {
                buff = buff + buffs[i].value();
            }
            i = i + 1;
        }
        proof {
            assert(buffs@.take(i as int) =~= buffs@);
        }
    }
    buff
}

/// Whether the sum of the scores of the preferences whose expression matches `value` stays
/// within `i16` at every step.
fn buff_all_fits(value: Option<&str>, buffs: &[TrackBuff]) -> (r: bool)
    ensures
        r == buff_fits(opt_text(value), buffs@),
{
    match value {
        None => {
            proof {
                assert forall|k: int| 0 <= k <= buffs@.len() implies i16::MIN <= #[trigger] buff_sum(
                    opt_text(value),
                    buffs@.take(k),
                ) <= i16::MAX by {}
            }
            true
        },
        Some(v) => {
            let mut buff: i32 = 0;
            let mut i: usize = 0;
            proof {
                assert(buffs@.take(0) =~= Seq::<TrackBuff>::empty());
            }
            while i < buffs.len()
                invariant
                    value == Some(v),
                    i <= buffs@.len(),
                    buff == buff_sum(opt_text(value), buffs@.take(i as int)),
                    forall|k: int|
                        0 <= k <= i ==> i16::MIN <= #[trigger] buff_sum(
                            opt_text(value),
                            buffs@.take(k),
                        ) <= i16::MAX,
                decreases buffs@.len() - i,
            {
                proof {
                    assert(buffs@.take(i + 1).drop_last() =~= buffs@.take(i as int));
                }
                if buffs[i].is_match(v) {
                    buff = buff + buffs[i].value() as i32;
                }
                if buff < -32768 || buff > 32767 {
                    proof {
                        assert(!(i16::MIN <= buff_sum(opt_text(value), buffs@.take(i + 1))
                            <= i16::MAX));
                    }
                    return false;
                }
                i = i + 1;
            }
            proof {
                assert(buffs@.take(i as int) =~= buffs@);
            }
            true
        },
    }
}

/// A track kept for a language: its id and the score it gained.
#[derive(Debug, Clone, Copy, PartialEq, Eq)]
pub struct TrackCtx {
    pub id: u16,
    pub buff: i16,
}

/// `-` and the decimal digits of `v`, as `{}` formats a signed number.
pub open spec fn signed_decimal_text(v: int) -> Seq<char> {
    if v < 0 {
        seq!['-'] + decimal((-v) as nat)
    } else {
        decimal(v as nat)
    }
}

impl TrackCtx {
    pub fn new(id: u16, buff: i16) -> (r: Self)
        ensures
            r == (TrackCtx { id, buff }),
    {
        TrackCtx { id, buff }
    }

    /// The text `id: <id>, buff: <buff>`.
    pub fn describe(&self) -> (r: String)
        ensures
            r@ == "id: "@ + decimal(self.id as nat) + ", buff: "@ + signed_decimal_text(
                self.buff as int,
            ),
    {
        let mut out: Vec<char> = Vec::new();
        out.push('i');
        out.push('d');
        out.push(':');
        out.push(' ');
        push_decimal(self.id as u64, &mut out);
        out.push(',');
        out.push(' ');
        out.push('b');
        out.push('u');
        out.push('f');
        out.push('f');
        out.push(':');
        out.push(' ');
        if self.buff < 0 {
            out.push('-');
            push_decimal((-(self.buff as i32)) as u64, &mut out);
        } else {
            push_decimal(self.buff as u64, &mut out);
        }
        proof {
            reveal_strlit("id: ");
            reveal_strlit(", buff: ");
        }
        let r = string_of(out.as_slice());
        proof {
            assert(r@ =~= "id: "@ + decimal(self.id as nat) + ", buff: "@ + signed_decimal_text(
                self.buff as int,
            ));
        }
        r
    }
}

/// The decimal ids, separated by commas.
pub open spec fn comma_list(ids: Seq<u16>) -> Seq<char>
    decreases ids.len(),
{
    if ids.len() == 0 {
        Seq::empty()
    } else if ids.len() == 1 {
        decimal(ids[0] as nat)
    } else {
        comma_list(ids.drop_last()) + seq![','] + decimal(ids.last() as nat)
    }
}

/// Writes the decimal ids separated by commas.
fn comma_join(ids: &Vec<u16>) -> (r: Vec<char>)
    ensures
        r@ == comma_list(ids@),
{
    let mut out: Vec<char> = Vec::new();
    let mut i: usize = 0;
    while i < ids.len()
        invariant
            i <= ids@.len(),
            out@ == comma_list(ids@.take(i as int)),
        decreases ids@.len() - i,
    {
        proof {
            assert(ids@.take(i + 1).drop_last() =~= ids@.take(i as int));
        }
        if i > 0 {
            out.push(',');
        }
        push_decimal(ids[i] as u64, &mut out);
        i = i + 1;
        proof {
            if i == 1 {
                assert(out@ =~= comma_list(ids@.take(i as int)));
            }
        }
    }
    proof {
        assert(ids@.take(i as int) =~= ids@);
    }
    out
}

/// The track that a track would be kept under: its language, when it is one of `langs`.
pub open spec fn wanted_lang(t: TrackInfo, langs: Seq<LangId>) -> Option<LangId> {
    match track_lang(t) {
        Some(l) => if langs.contains(l) {
            Some(l)
        } else {
            None
        },
        None => None,
    }
}

/// The score a track gains from the codec preferences and the name preferences.
pub open spec fn track_buff(t: TrackInfo, codecs: Seq<TrackBuff>, names: Seq<TrackBuff>) -> int {
    buff_sum(track_codec(t), codecs) + buff_sum(opt_string(t.properties.track_name), names)
}

/// Whether scoring a track stays within `i16`, the type of a score.
pub open spec fn upsert_fits(
    t: TrackInfo,
    langs: Seq<LangId>,
    codecs: Seq<TrackBuff>,
    names: Seq<TrackBuff>,
) -> bool {
    wanted_lang(t, langs) is Some ==> {
        &&& buff_fits(track_codec(t), codecs)
        &&& buff_fits(opt_string(t.properties.track_name), names)
        &&& i16::MIN <= track_buff(t, codecs, names) <= i16::MAX
    }
}

/// The tracks kept per language after offering track `t`: a track in a wanted language is
/// kept when its language has no track yet, or replaces the kept one when it scores higher.
pub open spec fn upsert_map(
    m: Map<LangId, TrackCtx>,
    t: TrackInfo,
    langs: Seq<LangId>,
    codecs: Seq<TrackBuff>,
    names: Seq<TrackBuff>,
) -> Map<LangId, TrackCtx> {
    match wanted_lang(t, langs) {
        None => m,
        Some(l) => {
            let ctx = TrackCtx { id: t.id, buff: track_buff(t, codecs, names) as i16 };
            if m.contains_key(l) && !(m[l].buff < ctx.buff) {
                m
            } else {
                m.insert(l, ctx)
            }
        },
    }
}

/// `keys` lists each language of `m` once.
pub open spec fn lists_keys(m: Map<LangId, TrackCtx>, keys: Seq<LangId>) -> bool {
    keys.no_duplicates() && keys.to_set() == m.dom()
}

/// How the list of ids is kept: once computed it stays; when it is asked for the first time it
/// lists the ids of the tracks kept, each language once, in the order in which the map is
/// walked (which the standard library leaves open).
pub open spec fn ids_cache_step(m: Map<LangId, TrackCtx>, before: Seq<char>, after: Seq<char>) -> bool {
    if before.len() > 0 {
        after == before
    } else {
        exists|keys: Seq<LangId>| lists_keys(m, keys) && after == ids_text(m, keys)
    }
}

/// The ids of the tracks kept, in the order `keys`, separated by commas.
pub open spec fn ids_text(m: Map<LangId, TrackCtx>, keys: Seq<LangId>) -> Seq<char> {
    comma_list(keys.map_values(|k: LangId| m[k].id))
}

fn contains_lang(langs: &[LangId], l: LangId) -> (r: bool)
    ensures
        r == langs@.contains(l),
{
    let mut i: usize = 0;
    while i < langs.len()
        invariant
            i <= langs@.len(),
            forall|j: int| 0 <= j < i ==> langs@[j] != l,
        decreases langs@.len() - i,
    {
        if langs[i] == l {
            return true;
        }
        i = i + 1;
    }
    false
}

/// The tracks of one kind kept per language, and the comma-separated list of their ids once
/// it has been asked for.
pub struct TrackKindCtx {
    tracks: HashMap<LangId, TrackCtx>,
    buf: String,
}

impl TrackKindCtx {
    /// The track kept for each language.
    pub closed spec fn chosen(&self) -> Map<LangId, TrackCtx> {
        self.tracks@
    }

    /// The list of ids, once it has been asked for (empty before).
    pub closed spec fn ids_cache(&self) -> Seq<char> {
        self.buf@
    }

    pub fn new() -> (r: Self)
        ensures
            r.chosen() == Map::<LangId, TrackCtx>::empty(),
            r.ids_cache() == Seq::<char>::empty(),
    {
        TrackKindCtx { tracks: HashMap::with_capacity(16), buf: String::new() }
    }

    pub fn clear(&mut self)
        ensures
            final(self).chosen() == Map::<LangId, TrackCtx>::empty(),
            final(self).ids_cache() == Seq::<char>::empty(),
    {
        self.tracks.clear();
        self.buf = String::new();
    }

    /// Offers a track: see `upsert_map`.
    pub fn upsert(
        &mut self,
        langs: &[LangId],
        codecs: &[TrackBuff],
        names: &[TrackBuff],
        track: &TrackInfo,
    )
        requires
            upsert_fits(*track, langs@, codecs@, names@),
        ensures
            final(self).chosen() == upsert_map(old(self).chosen(), *track, langs@, codecs@, names@),
            final(self).ids_cache() == old(self).ids_cache(),
    {
        if let Some(lang) = track.lang() {
            if contains_lang(langs, lang) {
                let id = track.id();
                let buff = buff_all(track.codec(), codecs) + buff_all(track.name(), names);
                let ctx = TrackCtx::new(id, buff);
                match self.tracks.get(&lang) {
                    Some(t) => {
                        if t.buff < ctx.buff {
                            self.tracks.insert(lang, ctx);
                        }
                    },
                    None => {
                        self.tracks.insert(lang, ctx);
                    },
                }
            }
        }
    }

    pub fn is_empty(&self) -> (r: bool)
        ensures
            r == (self.chosen().dom() == Set::<LangId>::empty()),
    {
        let r = self.tracks.is_empty();
        proof {
            if !r {
                assert(!self.tracks@.is_empty());
            }
        }
        r
    }

    /// The ids of the kept tracks separated by commas, in the order in which the map is walked;
    /// the list is computed once and kept until the next `clear`.
    pub fn get_ids(&mut self) -> (r: Result<&str, std::fmt::Error>)
        ensures
            final(self).chosen() == old(self).chosen(),
            r matches Ok(s) && s@ == final(self).ids_cache(),
            ids_cache_step(old(self).chosen(), old(self).ids_cache(), final(self).ids_cache()),
    {
        if self.buf.as_str().is_empty() {
            let mut keys: Vec<LangId> = Vec::new();
            let mut ids: Vec<u16> = Vec::new();
            let ghost m = self.tracks@;
            for (k, t) in it: self.tracks.iter()
                invariant
                    m == self.tracks@,
                    it.seq().len() == m.dom().len(),
                    forall|i: int|
                        0 <= i < it.seq().len() ==> m.contains_key(*(#[trigger] it.seq()[i]).0)
                            && m[*it.seq()[i].0] == *it.seq()[i].1,
                    it.seq().no_duplicates(),
                    keys@.len() == it.index(),
                    ids@.len() == it.index(),
                    forall|i: int| 0 <= i < it.index() ==> keys@[i] == *(#[trigger] it.seq()[i]).0
                        && ids@[i] == it.seq()[i].1.id,
                    forall|i: int| 0 <= i < it.index() ==> m.contains_key(#[trigger] keys@[i])
                        && ids@[i] == m[keys@[i]].id,
                    keys@.no_duplicates(),
            {
                proof {
                    let n = keys@.len() as int;
                    assert((k, t) == it.seq()[n]);
                    assert forall|j: int| 0 <= j < n implies keys@[j] != *k by {
                        if keys@[j] == *k {
                            assert(it.seq()[j] == it.seq()[n]);
                        }
                    }
                }
                keys.push(*k);
                ids.push(t.id);
            }
            proof {
                keys@.unique_seq_to_set();
                assert forall|x: LangId| keys@.to_set().contains(x) implies m.dom().contains(x) by {
                    let j = keys@.index_of(x);
                    assert(m.contains_key(keys@[j]));
                }
                vstd::set_lib::lemma_subset_equality(keys@.to_set(), m.dom());
                assert(ids@ =~= keys@.map_values(|k: LangId| m[k].id));
                assert(lists_keys(m, keys@));
            }
            let out = comma_join(&ids);
            self.buf = string_of(out.as_slice());
        }
        Ok(self.buf.as_str())
    }
}

/// Whether a track takes part in the choice: commentary tracks do not when they are skipped.
pub open spec fn track_counts(t: TrackInfo, skip_commentary: bool) -> bool {
    !track_is_commentary(t) || !skip_commentary
}

/// Whether the reported type of a track is `kind`.
pub open spec fn kind_is(t: TrackInfo, kind: Seq<char>) -> bool {
    opt_string(t.kind) == Some(kind)
}

/// What is chosen from a playlist: the audio and subtitle track kept per language, and the
/// playlist's score (1000 per video track, 100 per audio track, 10 per subtitle track).
pub struct PlaylistChoice {
    pub audio: Map<LangId, TrackCtx>,
    pub subtitles: Map<LangId, TrackCtx>,
    pub score: int,
}

/// The empty choice.
pub open spec fn empty_choice() -> PlaylistChoice {
    PlaylistChoice { audio: Map::empty(), subtitles: Map::empty(), score: 0 }
}

/// The choice after offering one more track.
pub open spec fn offer_track(
    c: PlaylistChoice,
    t: TrackInfo,
    langs: Seq<LangId>,
    codecs: Seq<TrackBuff>,
    names: Seq<TrackBuff>,
    skip_commentary: bool,
) -> PlaylistChoice {
    if !track_counts(t, skip_commentary) {
        c
    } else if kind_is(t, "video"@) {
        PlaylistChoice { score: c.score + 1000, ..c }
    } else if kind_is(t, "audio"@) {
        PlaylistChoice {
            score: c.score + 100,
            audio: upsert_map(c.audio, t, langs, codecs, names),
            ..c
        }
    } else if kind_is(t, "subtitles"@) {
        PlaylistChoice {
            score: c.score + 10,
            subtitles: upsert_map(c.subtitles, t, langs, codecs, names),
            ..c
        }
    } else {
        c
    }
}

/// The choice made from `tracks`, offered in order.
pub open spec fn choose_tracks(
    tracks: Seq<TrackInfo>,
    langs: Seq<LangId>,
    codecs: Seq<TrackBuff>,
    names: Seq<TrackBuff>,
    skip_commentary: bool,
) -> PlaylistChoice
    decreases tracks.len(),
{
    if tracks.len() == 0 {
        empty_choice()
    } else {
        offer_track(
            choose_tracks(tracks.drop_last(), langs, codecs, names, skip_commentary),
            tracks.last(),
            langs,
            codecs,
            names,
            skip_commentary,
        )
    }
}

/// Whether a track is offered to the audio or subtitle choice.
pub open spec fn track_is_offered(t: TrackInfo, skip_commentary: bool) -> bool {
    track_counts(t, skip_commentary) && !kind_is(t, "video"@) && (kind_is(t, "audio"@) || kind_is(
        t,
        "subtitles"@,
    ))
}

/// Whether each offered track's score stays within `i16`.
pub open spec fn tracks_fit(
    tracks: Seq<TrackInfo>,
    langs: Seq<LangId>,
    codecs: Seq<TrackBuff>,
    names: Seq<TrackBuff>,
    skip_commentary: bool,
) -> bool {
    forall|i: int|
        0 <= i < tracks.len() && track_is_offered(#[trigger] tracks[i], skip_commentary)
            ==> upsert_fits(tracks[i], langs, codecs, names)
}

/// Whether choosing from `tracks` stays within the integer types of the scores: the
/// playlist's score within `u16` and each offered track's score within `i16`.
pub open spec fn reload_fits(
    tracks: Seq<TrackInfo>,
    langs: Seq<LangId>,
    codecs: Seq<TrackBuff>,
    names: Seq<TrackBuff>,
    skip_commentary: bool,
) -> bool {
    &&& choose_tracks(tracks, langs, codecs, names, skip_commentary).score <= u16::MAX
    &&& tracks_fit(tracks, langs, codecs, names, skip_commentary)
}

/// The score never decreases as tracks are offered.
pub proof fn lemma_score_grows(
    tracks: Seq<TrackInfo>,
    k: int,
    langs: Seq<LangId>,
    codecs: Seq<TrackBuff>,
    names: Seq<TrackBuff>,
    skip_commentary: bool,
)
    requires
        0 <= k <= tracks.len(),
    ensures
        0 <= choose_tracks(tracks.take(k), langs, codecs, names, skip_commentary).score
            <= choose_tracks(tracks, langs, codecs, names, skip_commentary).score,
    decreases tracks.len(),
{
    if k == tracks.len() {
        assert(tracks.take(k) =~= tracks);
        if tracks.len() > 0 {
            lemma_score_grows(tracks.drop_last(), k - 1, langs, codecs, names, skip_commentary);
            assert(tracks.drop_last().take(k - 1) =~= tracks.drop_last());
        }
    } else {
        lemma_score_grows(tracks.drop_last(), k, langs, codecs, names, skip_commentary);
        assert(tracks.drop_last().take(k) =~= tracks.take(k));
    }
}

/// The tracks chosen from one playlist, and its score.
pub struct PlayListCtx {
    audio: TrackKindCtx,
    subtitles: TrackKindCtx,
    score: u16,
}

impl PlayListCtx {
    /// The current choice.
    pub closed spec fn choice(&self) -> PlaylistChoice {
        PlaylistChoice {
            audio: self.audio.chosen(),
            subtitles: self.subtitles.chosen(),
            score: self.score as int,
        }
    }

    /// The audio track ids, once asked for.
    pub closed spec fn audio_ids(&self) -> Seq<char> {
        self.audio.ids_cache()
    }

    /// The subtitle track ids, once asked for.
    pub closed spec fn subtitle_ids(&self) -> Seq<char> {
        self.subtitles.ids_cache()
    }

    pub fn new() -> (r: Self)
        ensures
            r.choice() == empty_choice(),
            r.audio_ids() == Seq::<char>::empty(),
            r.subtitle_ids() == Seq::<char>::empty(),
    {
        PlayListCtx { audio: TrackKindCtx::new(), subtitles: TrackKindCtx::new(), score: 0 }
    }

    pub fn clear(&mut self)
        ensures
            final(self).choice() == empty_choice(),
            final(self).audio_ids() == Seq::<char>::empty(),
            final(self).subtitle_ids() == Seq::<char>::empty(),
    {
        self.audio.clear();
        self.subtitles.clear();
        self.score = 0;
    }

    /// Chooses afresh from the tracks of a playlist.
    pub fn reload(
        &mut self,
        playlist_info: &PlaylistInfo,
        langs: &[LangId],
        codecs: &[TrackBuff],
        names: &[TrackBuff],
        skip_commentary: bool,
    )
        requires
            reload_fits(playlist_info.tracks@, langs@, codecs@, names@, skip_commentary),
        ensures
            final(self).choice() == choose_tracks(
                playlist_info.tracks@,
                langs@,
                codecs@,
                names@,
                skip_commentary,
            ),
            final(self).audio_ids() == Seq::<char>::empty(),
            final(self).subtitle_ids() == Seq::<char>::empty(),
    {
        self.clear();
        let tracks = playlist_info.tracks();
        let ghost all = tracks@;
        let mut i: usize = 0;
        proof {
            assert(all.take(0) =~= Seq::<TrackInfo>::empty());
        }
        while i < tracks.len()
            invariant
                tracks@ == all,
                i <= all.len(),
                reload_fits(all, langs@, codecs@, names@, skip_commentary),
                self.choice() == choose_tracks(
                    all.take(i as int),
                    langs@,
                    codecs@,
                    names@,
                    skip_commentary,
                ),
                self.audio_ids() == Seq::<char>::empty(),
                self.subtitle_ids() == Seq::<char>::empty(),
            decreases all.len() - i,
        {
            let track_info = &tracks[i];
            proof {
                assert(all.take(i + 1).drop_last() =~= all.take(i as int));
                assert(all.take(i + 1).last() == all[i as int]);
                lemma_score_grows(all, i + 1, langs@, codecs@, names@, skip_commentary);
                if track_is_offered(all[i as int], skip_commentary) {
                    assert(upsert_fits(all[i as int], langs@, codecs@, names@));
                }
            }
            if !track_info.is_commentary() || !skip_commentary {
                if let Some(kind) = track_info.kind() {
                    if same_text(kind, "video") {
                        self.score = self.score + 1000;
                    } else if same_text(kind, "audio") {
                        self.score = self.score + 100;
                        self.audio.upsert(langs, codecs, names, track_info);
                    } else if same_text(kind, "subtitles") {
                        self.score = self.score + 10;
                        self.subtitles.upsert(langs, codecs, names, track_info);
                    }
                }
            }
            i = i + 1;
        }
        proof {
            assert(all.take(i as int) =~= all);
        }
    }
}

/// Whether scoring a track stays within `i16`.
fn upsert_fits_exec(
    langs: &[LangId],
    codecs: &[TrackBuff],
    names: &[TrackBuff],
    track: &TrackInfo,
) -> (r: bool)
    ensures
        r == upsert_fits(*track, langs@, codecs@, names@),
{
    match track.lang() {
        None => true,
        Some(lang) => {
            if !contains_lang(langs, lang) {
                return true;
            }
            if !buff_all_fits(track.codec(), codecs) || !buff_all_fits(track.name(), names) {
                return false;
            }
            let total: i32 = buff_all(track.codec(), codecs) as i32 + buff_all(track.name(), names)
                as i32;
            -32768 <= total && total <= 32767
        },
    }
}

/// Whether choosing from `tracks` stays within the integer types of the scores.
fn reload_fits_exec(
    tracks: &[TrackInfo],
    langs: &[LangId],
    codecs: &[TrackBuff],
    names: &[TrackBuff],
    skip_commentary: bool,
) -> (r: bool)
    ensures
        r == reload_fits(tracks@, langs@, codecs@, names@, skip_commentary),
{
    let ghost all = tracks@;
    let mut score: u32 = 0;
    let mut i: usize = 0;
    proof {
        assert(all.take(0) =~= Seq::<TrackInfo>::empty());
    }
    while i < tracks.len()
        invariant
            tracks@ == all,
            i <= all.len(),
            score as int == choose_tracks(
                all.take(i as int),
                langs@,
                codecs@,
                names@,
                skip_commentary,
            ).score,
            score <= u16::MAX,
            forall|j: int|
                0 <= j < i && track_is_offered(#[trigger] all[j], skip_commentary) ==> upsert_fits(
                    all[j],
                    langs@,
                    codecs@,
                    names@,
                ),
        decreases all.len() - i,
    {
        let t = &tracks[i];
        proof {
            assert(all.take(i + 1).drop_last() =~= all.take(i as int));
            assert(all.take(i + 1).last() == all[i as int]);
        }
        if !t.is_commentary() || !skip_commentary {
            if let Some(kind) = t.kind() {
                if same_text(kind, "video") {
                    score = score + 1000;
                } else if same_text(kind, "audio") {
                    score = score + 100;
                    if !upsert_fits_exec(langs, codecs, names, t) {
                        return false;
                    }
                } else if same_text(kind, "subtitles") {
                    score = score + 10;
                    if !upsert_fits_exec(langs, codecs, names, t) {
                        return false;
                    }
                }
            }
        }
        if score > 65535 {
            proof {
                lemma_score_grows(all, i + 1, langs@, codecs@, names@, skip_commentary);
            }
            return false;
        }
        i = i + 1;
    }
    proof {
        assert(all.take(i as int) =~= all);
    }
    true
}

/// A playlist of a disc is considered when it is recognized and supported and lasts
/// between one and six hours.
pub open spec fn playlist_eligible(info: PlaylistInfo) -> bool {
    &&& info.container.recognized
    &&& info.container.supported
    &&& match info.container.properties.playlist_duration {
        Some(n) => 3_600_000_000_000 <= n && n <= 21_600_000_000_000,
        None => false,
    }
}

/// The text of each argument.
pub open spec fn arg_texts(args: Seq<String>) -> Seq<Seq<char>> {
    args.map_values(|a: String| a@)
}

/// What remuxing keeps: the language preferences, the codec and name preferences, whether
/// commentary tracks are skipped, the best playlist chosen so far and the one being read.
pub struct PeelCtx {
    langs: Vec<LangId>,
    codecs: Vec<TrackBuff>,
    names: Vec<TrackBuff>,
    skip_commentary: bool,
    max: PlayListCtx,
    cur: PlayListCtx,
    extensions: Vec<String>,
}

impl PeelCtx {
    pub closed spec fn langs(&self) -> Seq<LangId> {
        self.langs@
    }

    pub closed spec fn codecs(&self) -> Seq<TrackBuff> {
        self.codecs@
    }

    pub closed spec fn names(&self) -> Seq<TrackBuff> {
        self.names@
    }

    pub closed spec fn skips_commentary(&self) -> bool {
        self.skip_commentary
    }

    /// The file extensions of video files that are remuxed.
    pub closed spec fn extensions(&self) -> Seq<Seq<char>> {
        arg_texts(self.extensions@)
    }

    /// The choice made from the best playlist so far.
    pub closed spec fn best(&self) -> PlaylistChoice {
        self.max.choice()
    }

    /// The audio ids of the best playlist, once asked for.
    pub closed spec fn best_audio_ids(&self) -> Seq<char> {
        self.max.audio_ids()
    }

    /// The subtitle ids of the best playlist, once asked for.
    pub closed spec fn best_subtitle_ids(&self) -> Seq<char> {
        self.max.subtitle_ids()
    }

    /// The choice for the given tracks under this context's preferences.
    pub open spec fn choice_for(&self, tracks: Seq<TrackInfo>) -> PlaylistChoice {
        choose_tracks(tracks, self.langs(), self.codecs(), self.names(), self.skips_commentary())
    }

    /// Whether choosing from the given tracks stays within the integer types of the scores.
    pub open spec fn fits(&self, tracks: Seq<TrackInfo>) -> bool {
        reload_fits(tracks, self.langs(), self.codecs(), self.names(), self.skips_commentary())
    }

    /// What offering a playlist answers: `Some(true)` when it is eligible and scores higher
    /// than the best so far, `None` when it is eligible but scoring it would overflow,
    /// `Some(false)` otherwise.
    pub open spec fn offer_answer(&self, info: PlaylistInfo) -> Option<bool> {
        if !playlist_eligible(info) {
            Some(false)
        } else if !self.fits(info.tracks@) {
            None
        } else {
            Some(self.best().score < self.choice_for(info.tracks@).score)
        }
    }

    /// The best playlist's choice after offering a playlist.
    pub open spec fn offer_best(&self, info: PlaylistInfo) -> PlaylistChoice {
        if self.offer_answer(info) == Some(true) {
            self.choice_for(info.tracks@)
        } else {
            self.best()
        }
    }

    /// The preferences, unchanged.
    pub open spec fn same_preferences(&self, other: &PeelCtx) -> bool {
        &&& self.langs() == other.langs()
        &&& self.codecs() == other.codecs()
        &&& self.names() == other.names()
        &&& self.skips_commentary() == other.skips_commentary()
        &&& self.extensions() == other.extensions()
    }

    /// The same preferences, the same best playlist and the same lists of its ids: all that
    /// `offer`, `take` and `track_args` read.
    pub open spec fn same_state(&self, other: &PeelCtx) -> bool {
        &&& self.same_preferences(other)
        &&& self.best() == other.best()
        &&& self.best_audio_ids() == other.best_audio_ids()
        &&& self.best_subtitle_ids() == other.best_subtitle_ids()
    }

    /// The state that `new` and `begin` leave: no best playlist yet, no ids asked for.
    pub open spec fn is_fresh(&self) -> bool {
        &&& self.best() == empty_choice()
        &&& self.best_audio_ids() == Seq::<char>::empty()
        &&& self.best_subtitle_ids() == Seq::<char>::empty()
    }

    pub fn new(
        langs: Vec<LangId>,
        codecs: Vec<TrackBuff>,
        names: Vec<TrackBuff>,
        skip_commentary: bool,
    ) -> (r: Self)
        ensures
            r.langs() == langs@,
            r.codecs() == codecs@,
            r.names() == names@,
            r.skips_commentary() == skip_commentary,
            r.extensions() == seq!["mkv"@, "mp4"@, "avi"@, "mov"@],
            r.best() == empty_choice(),
            r.best_audio_ids() == Seq::<char>::empty(),
            r.best_subtitle_ids() == Seq::<char>::empty(),
    {
        let mut extensions: Vec<String> = Vec::new();
        extensions.push("mkv".to_owned());
        extensions.push("mp4".to_owned());
        extensions.push("avi".to_owned());
        extensions.push("mov".to_owned());
        let r = PeelCtx {
            langs,
            codecs,
            names,
            skip_commentary,
            max: PlayListCtx::new(),
            cur: PlayListCtx::new(),
            extensions,
        };
        proof {
            assert(r.extensions() =~= seq!["mkv"@, "mp4"@, "avi"@, "mov"@]);
        }
        r
    }

    /// Whether a file with extension `ext` is a video file to remux (ASCII case ignored).
    pub fn accepts_extension(&self, ext: &str) -> (r: bool)
        ensures
            r == exists|i: int|
                0 <= i < self.extensions().len() && eq_ignore_ascii_case(
                    #[trigger] self.extensions()[i],
                    ext@,
                ),
    {
        let mut i: usize = 0;
        while i < self.extensions.len()
            invariant
                i <= self.extensions@.len(),
                forall|j: int|
                    0 <= j < i ==> !eq_ignore_ascii_case(#[trigger] self.extensions()[j], ext@),
            decreases self.extensions@.len() - i,
        {
            if same_text_ignore_ascii_case(self.extensions[i].as_str(), ext) {
                proof {
                    assert(self.extensions()[i as int] == self.extensions@[i as int]@);
                }
                return true;
            }
            i = i + 1;
        }
        false
    }

    /// Forgets the playlists chosen before.
    pub fn begin(&mut self)
        ensures
            final(self).same_preferences(old(self)),
            final(self).best() == empty_choice(),
            final(self).best_audio_ids() == Seq::<char>::empty(),
            final(self).best_subtitle_ids() == Seq::<char>::empty(),
    {
        self.max.clear();
        self.cur.clear();
    }

    /// Offers a playlist of a disc. An eligible playlist becomes the best when it scores
    /// higher than the best so far (`Some(true)`); otherwise the best stays (`Some(false)`).
    /// `None` where a score would leave its integer type; nothing changes then.
    pub fn offer(&mut self, info: &PlaylistInfo) -> (r: Option<bool>)
        ensures
            final(self).same_preferences(old(self)),
            r == old(self).offer_answer(*info),
            final(self).best() == old(self).offer_best(*info),
            r == Some(true) ==> final(self).best_audio_ids() == Seq::<char>::empty()
                && final(self).best_subtitle_ids() == Seq::<char>::empty(),
            r != Some(true) ==> final(self).best_audio_ids() == old(self).best_audio_ids()
                && final(self).best_subtitle_ids() == old(self).best_subtitle_ids(),
    {
        if !(info.recognized() && info.supported()) {
            return Some(false);
        }
        match info.container.properties.playlist_duration {
            None => {
                return Some(false);
            },
            Some(n) => {
                if !(3_600_000_000_000 <= n && n <= 21_600_000_000_000) {
                    return Some(false);
                }
            },
        }
        if !reload_fits_exec(
            info.tracks(),
            self.langs.as_slice(),
            self.codecs.as_slice(),
            self.names.as_slice(),
            self.skip_commentary,
        ) {
            return None;
        }
        self.cur.reload(
            info,
            self.langs.as_slice(),
            self.codecs.as_slice(),
            self.names.as_slice(),
            self.skip_commentary,
        );
        if self.max.score < self.cur.score {
            std::mem::swap(&mut self.max, &mut self.cur);
            Some(true)
        } else {
            Some(false)
        }
    }

    /// Takes a single file as the playlist to remux, without the checks made on the
    /// playlists of a disc. `false` where a score would leave its integer type;
    /// nothing changes then.
    pub fn take(&mut self, info: &PlaylistInfo) -> (r: bool)
        ensures
            final(self).same_preferences(old(self)),
            r == old(self).fits(info.tracks@),
            r ==> final(self).best() == old(self).choice_for(info.tracks@)
                && final(self).best_audio_ids() == Seq::<char>::empty()
                && final(self).best_subtitle_ids() == Seq::<char>::empty(),
            !r ==> final(self).best() == old(self).best() && final(self).best_audio_ids()
                == old(self).best_audio_ids() && final(self).best_subtitle_ids() == old(self).best_subtitle_ids(),
    {
        if !reload_fits_exec(
            info.tracks(),
            self.langs.as_slice(),
            self.codecs.as_slice(),
            self.names.as_slice(),
            self.skip_commentary,
        ) {
            return false;
        }
        self.max.reload(
            info,
            self.langs.as_slice(),
            self.codecs.as_slice(),
            self.names.as_slice(),
            self.skip_commentary,
        );
        true
    }

    /// The options that select what `mkvmerge` keeps of the best playlist: no buttons, no
    /// attachments, no global tags, and the audio and subtitle tracks chosen (each list only
    /// when a track of that kind was chosen).
    pub fn track_args(&mut self) -> (r: Vec<String>)
        ensures
            final(self).same_preferences(old(self)),
            final(self).best() == old(self).best(),
            arg_texts(r@) == seq!["--no-buttons"@, "--no-attachments"@, "--no-global-tags"@] + (
            if old(self).best().audio.dom() == Set::<LangId>::empty() {
                Seq::<Seq<char>>::empty()
            } else {
                seq!["--audio-tracks"@, final(self).best_audio_ids()]
            }) + (if old(self).best().subtitles.dom() == Set::<LangId>::empty() {
                Seq::<Seq<char>>::empty()
            } else {
                seq!["--subtitle-tracks"@, final(self).best_subtitle_ids()]
            }),
            old(self).best().audio.dom() == Set::<LangId>::empty() ==> final(self).best_audio_ids()
                == old(self).best_audio_ids(),
            old(self).best().audio.dom() != Set::<LangId>::empty() ==> ids_cache_step(
                old(self).best().audio,
                old(self).best_audio_ids(),
                final(self).best_audio_ids(),
            ),
            old(self).best().subtitles.dom() == Set::<LangId>::empty()
                ==> final(self).best_subtitle_ids() == old(self).best_subtitle_ids(),
            old(self).best().subtitles.dom() != Set::<LangId>::empty() ==> ids_cache_step(
                old(self).best().subtitles,
                old(self).best_subtitle_ids(),
                final(self).best_subtitle_ids(),
            ),
    {
        let mut args: Vec<String> = Vec::new();
        args.push("--no-buttons".to_owned());
        args.push("--no-attachments".to_owned());
        args.push("--no-global-tags".to_owned());
        let ghost base = arg_texts(args@);
        proof {
            assert(base =~= seq!["--no-buttons"@, "--no-attachments"@, "--no-global-tags"@]);
        }
        if !self.max.audio.is_empty() {
            match self.max.audio.get_ids() {
                Ok(ids) => {
                    let ids = ids.to_owned();
                    args.push("--audio-tracks".to_owned());
                    args.push(ids);
                },
                Err(_) => {},
            }
        }
        let ghost mid = arg_texts(args@);
        proof {
            if self.max.audio.chosen().dom() == Set::<LangId>::empty() {
                assert(mid =~= base);
            } else {
                assert(mid =~= base + seq!["--audio-tracks"@, self.max.audio_ids()]);
            }
        }
        if !self.max.subtitles.is_empty() {
            match self.max.subtitles.get_ids() {
                Ok(ids) => {
                    let ids = ids.to_owned();
                    args.push("--subtitle-tracks".to_owned());
                    args.push(ids);
                },
                Err(_) => {},
            }
        }
        proof {
            if self.max.subtitles.chosen().dom() == Set::<LangId>::empty() {
                assert(arg_texts(args@) =~= mid);
            } else {
                assert(arg_texts(args@) =~= mid + seq!["--subtitle-tracks"@, self.max.subtitle_ids()]);
            }
        }
        args
    }
}

/// The name of the kind of track chosen: audio, else subtitles.
pub open spec fn kind_name(audio: bool) -> Seq<char> {
    if audio {
        "audio"@
    } else {
        "subtitles"@
    }
}

/// The tracks kept of one kind.
pub open spec fn kind_choice(c: PlaylistChoice, audio: bool) -> Map<LangId, TrackCtx> {
    if audio {
        c.audio
    } else {
        c.subtitles
    }
}

/// Whether a track takes part in the choice of its kind.
pub open spec fn offered_in(t: TrackInfo, audio: bool, skip_commentary: bool) -> bool {
    track_counts(t, skip_commentary) && kind_is(t, kind_name(audio))
}

/// Track `i` is the one kept for language `l`: it is offered in that language, `m` records
/// its id and score, the offered tracks of that language before it score less, and those
/// after it score no more.
pub open spec fn keeps(
    m: Map<LangId, TrackCtx>,
    tracks: Seq<TrackInfo>,
    i: int,
    l: LangId,
    langs: Seq<LangId>,
    codecs: Seq<TrackBuff>,
    names: Seq<TrackBuff>,
    skip_commentary: bool,
    audio: bool,
) -> bool {
    &&& 0 <= i < tracks.len()
    &&& offered_in(tracks[i], audio, skip_commentary)
    &&& wanted_lang(tracks[i], langs) == Some(l)
    &&& m[l] == TrackCtx { id: tracks[i].id, buff: track_buff(tracks[i], codecs, names) as i16 }
    &&& forall|j: int|
        0 <= j < tracks.len() && offered_in(#[trigger] tracks[j], audio, skip_commentary)
            && wanted_lang(tracks[j], langs) == Some(l) ==> (j < i ==> track_buff(
            tracks[j],
            codecs,
            names,
        ) < track_buff(tracks[i], codecs, names)) && (i < j ==> track_buff(tracks[j], codecs, names)
            <= track_buff(tracks[i], codecs, names))
}

/// The kind names differ from each other and from `video`.
proof fn lemma_kind_names_differ()
    ensures
        "audio"@ != "video"@,
        "subtitles"@ != "video"@,
        "subtitles"@ != "audio"@,
{
    reveal_strlit("audio");
    reveal_strlit("video");
    reveal_strlit("subtitles");
    assert("audio"@[0] != "video"@[0]);
    assert("subtitles"@[0] != "video"@[0]);
    assert("subtitles"@[0] != "audio"@[0]);
}

/// Offering a track changes the tracks kept of a kind only when it is offered in that kind.
proof fn lemma_step_map(
    c: PlaylistChoice,
    t: TrackInfo,
    langs: Seq<LangId>,
    codecs: Seq<TrackBuff>,
    names: Seq<TrackBuff>,
    skip_commentary: bool,
    audio: bool,
)
    ensures
        kind_choice(offer_track(c, t, langs, codecs, names, skip_commentary), audio) == if offered_in(
            t,
            audio,
            skip_commentary,
        ) {
            upsert_map(kind_choice(c, audio), t, langs, codecs, names)
        } else {
            kind_choice(c, audio)
        },
        offered_in(t, audio, skip_commentary) ==> track_is_offered(t, skip_commentary),
{
    lemma_kind_names_differ();
}

/// A track kept stays kept when a track that does not beat it is added after it.
proof fn lemma_keeps_extend(
    m: Map<LangId, TrackCtx>,
    mp: Map<LangId, TrackCtx>,
    pre: Seq<TrackInfo>,
    t: TrackInfo,
    i: int,
    l: LangId,
    langs: Seq<LangId>,
    codecs: Seq<TrackBuff>,
    names: Seq<TrackBuff>,
    skip_commentary: bool,
    audio: bool,
)
    requires
        keeps(mp, pre, i, l, langs, codecs, names, skip_commentary, audio),
        m[l] == mp[l],
        offered_in(t, audio, skip_commentary) && wanted_lang(t, langs) == Some(l) ==> track_buff(
            t,
            codecs,
            names,
        ) <= track_buff(pre[i], codecs, names),
    ensures
        keeps(m, pre.push(t), i, l, langs, codecs, names, skip_commentary, audio),
{
    let tracks = pre.push(t);
    assert(tracks[i] == pre[i]);
    assert forall|j: int|
        0 <= j < tracks.len() && offered_in(#[trigger] tracks[j], audio, skip_commentary)
            && wanted_lang(tracks[j], langs) == Some(l) implies (j < i ==> track_buff(
        tracks[j],
        codecs,
        names,
    ) < track_buff(tracks[i], codecs, names)) && (i < j ==> track_buff(tracks[j], codecs, names)
        <= track_buff(tracks[i], codecs, names)) by {
        if j < pre.len() {
            assert(tracks[j] == pre[j]);
        }
    }
}

/// An added track is kept when it beats the track kept before, or when none was kept.
proof fn lemma_keeps_new(
    m: Map<LangId, TrackCtx>,
    pre: Seq<TrackInfo>,
    t: TrackInfo,
    l: LangId,
    langs: Seq<LangId>,
    codecs: Seq<TrackBuff>,
    names: Seq<TrackBuff>,
    skip_commentary: bool,
    audio: bool,
)
    requires
        offered_in(t, audio, skip_commentary),
        wanted_lang(t, langs) == Some(l),
        m[l] == (TrackCtx { id: t.id, buff: track_buff(t, codecs, names) as i16 }),
        forall|j: int|
            0 <= j < pre.len() && offered_in(#[trigger] pre[j], audio, skip_commentary) && wanted_lang(
                pre[j],
                langs,
            ) == Some(l) ==> track_buff(pre[j], codecs, names) < track_buff(t, codecs, names),
    ensures
        keeps(m, pre.push(t), pre.len() as int, l, langs, codecs, names, skip_commentary, audio),
{
    let tracks = pre.push(t);
    assert(tracks[pre.len() as int] == t);
    assert forall|j: int|
        0 <= j < tracks.len() && offered_in(#[trigger] tracks[j], audio, skip_commentary)
            && wanted_lang(tracks[j], langs) == Some(l) implies (j < pre.len() ==> track_buff(
        tracks[j],
        codecs,
        names,
    ) < track_buff(tracks[pre.len() as int], codecs, names)) && (pre.len() < j ==> track_buff(
        tracks[j],
        codecs,
        names,
    ) <= track_buff(tracks[pre.len() as int], codecs, names)) by {
        if j < pre.len() {
            assert(tracks[j] == pre[j]);
        }
    }
}

/// Law of the choice: for each kind, the languages that get a track are exactly the wanted
/// languages in which a track of that kind is offered, and the track kept for a language is
/// the first of the highest-scoring offered tracks in that language.
pub proof fn lemma_choice_keeps_best_track(
    tracks: Seq<TrackInfo>,
    langs: Seq<LangId>,
    codecs: Seq<TrackBuff>,
    names: Seq<TrackBuff>,
    skip_commentary: bool,
    audio: bool,
)
    requires
        tracks_fit(tracks, langs, codecs, names, skip_commentary),
    ensures
        ({
            let m = kind_choice(
                choose_tracks(tracks, langs, codecs, names, skip_commentary),
                audio,
            );
            &&& forall|l: LangId|
                #[trigger] m.contains_key(l) ==> exists|i: int|
                    keeps(m, tracks, i, l, langs, codecs, names, skip_commentary, audio)
            &&& forall|i: int|
                0 <= i < tracks.len() && offered_in(#[trigger] tracks[i], audio, skip_commentary)
                    && wanted_lang(tracks[i], langs) is Some ==> m.contains_key(
                    wanted_lang(tracks[i], langs)->0,
                )
        }),
    decreases tracks.len(),
{
    let m = kind_choice(choose_tracks(tracks, langs, codecs, names, skip_commentary), audio);
    if tracks.len() == 0 {
        assert(m =~= Map::<LangId, TrackCtx>::empty());
    } else {
        let n = tracks.len() - 1;
        let pre = tracks.drop_last();
        let t = tracks.last();
        assert(tracks =~= pre.push(t));
        assert(tracks_fit(pre, langs, codecs, names, skip_commentary)) by {
            assert forall|i: int|
                0 <= i < pre.len() && track_is_offered(#[trigger] pre[i], skip_commentary)
                    implies upsert_fits(pre[i], langs, codecs, names) by {
                assert(pre[i] == tracks[i]);
            }
        }
        lemma_choice_keeps_best_track(pre, langs, codecs, names, skip_commentary, audio);
        let cp = choose_tracks(pre, langs, codecs, names, skip_commentary);
        let mp = kind_choice(cp, audio);
        lemma_step_map(cp, t, langs, codecs, names, skip_commentary, audio);
        assert forall|i: int| 0 <= i < pre.len() implies #[trigger] tracks[i] == pre[i] by {}
        if offered_in(t, audio, skip_commentary) && wanted_lang(t, langs) is Some {
            let l0 = wanted_lang(t, langs)->0;
            assert(tracks[n] == t);
            assert(upsert_fits(t, langs, codecs, names));
            let bt = track_buff(t, codecs, names);
            assert forall|l: LangId| #[trigger] m.contains_key(l) implies exists|i: int|
                keeps(m, tracks, i, l, langs, codecs, names, skip_commentary, audio) by {
                if l == l0 && mp.contains_key(l0) {
                    let i0 = choose|i: int|
                        keeps(mp, pre, i, l0, langs, codecs, names, skip_commentary, audio);
                    lemma_step_map(cp, pre[i0], langs, codecs, names, skip_commentary, audio);
                    assert(track_is_offered(tracks[i0], skip_commentary));
                    assert(upsert_fits(tracks[i0], langs, codecs, names));
                    if mp[l0].buff < bt as i16 {
                        lemma_keeps_new(m, pre, t, l0, langs, codecs, names, skip_commentary, audio);
                        assert(keeps(m, tracks, n, l, langs, codecs, names, skip_commentary, audio));
                    } else {
                        lemma_keeps_extend(m, mp, pre, t, i0, l0, langs, codecs, names, skip_commentary, audio);
                        assert(keeps(m, tracks, i0, l, langs, codecs, names, skip_commentary, audio));
                    }
                } else if l == l0 {
                    assert forall|j: int|
                        0 <= j < pre.len() && offered_in(#[trigger] pre[j], audio, skip_commentary)
                            && wanted_lang(pre[j], langs) == Some(l0) implies track_buff(
                        pre[j],
                        codecs,
                        names,
                    ) < track_buff(t, codecs, names) by {
                        assert(mp.contains_key(wanted_lang(pre[j], langs)->0));
                    }
                    lemma_keeps_new(m, pre, t, l0, langs, codecs, names, skip_commentary, audio);
                    assert(keeps(m, tracks, n, l, langs, codecs, names, skip_commentary, audio));
                } else {
                    assert(mp.contains_key(l));
                    let i0 = choose|i: int|
                        keeps(mp, pre, i, l, langs, codecs, names, skip_commentary, audio);
                    lemma_keeps_extend(m, mp, pre, t, i0, l, langs, codecs, names, skip_commentary, audio);
                    assert(keeps(m, tracks, i0, l, langs, codecs, names, skip_commentary, audio));
                }
            }
        } else {
            assert forall|l: LangId| #[trigger] m.contains_key(l) implies exists|i: int|
                keeps(m, tracks, i, l, langs, codecs, names, skip_commentary, audio) by {
                let i0 = choose|i: int|
                    keeps(mp, pre, i, l, langs, codecs, names, skip_commentary, audio);
                lemma_keeps_extend(m, mp, pre, t, i0, l, langs, codecs, names, skip_commentary, audio);
                assert(keeps(m, tracks, i0, l, langs, codecs, names, skip_commentary, audio));
            }
        }
        assert forall|i: int|
            0 <= i < tracks.len() && offered_in(#[trigger] tracks[i], audio, skip_commentary)
                && wanted_lang(tracks[i], langs) is Some implies m.contains_key(
            wanted_lang(tracks[i], langs)->0,
        ) by {
            if i < n {
                assert(pre[i] == tracks[i]);
            }
        }
    }
}

/// Law of the score: a playlist's score depends on the kinds of its tracks and on whether
/// commentary is skipped, not on the language, codec or name preferences.
pub proof fn lemma_score_ignores_preferences(
    tracks: Seq<TrackInfo>,
    langs1: Seq<LangId>,
    codecs1: Seq<TrackBuff>,
    names1: Seq<TrackBuff>,
    langs2: Seq<LangId>,
    codecs2: Seq<TrackBuff>,
    names2: Seq<TrackBuff>,
    skip_commentary: bool,
)
    ensures
        choose_tracks(tracks, langs1, codecs1, names1, skip_commentary).score == choose_tracks(
            tracks,
            langs2,
            codecs2,
            names2,
            skip_commentary,
        ).score,
    decreases tracks.len(),
{
    if tracks.len() > 0 {
        lemma_score_ignores_preferences(
            tracks.drop_last(),
            langs1,
            codecs1,
            names1,
            langs2,
            codecs2,
            names2,
            skip_commentary,
        );
    }
}

/// Law of the offers: offering a playlist never lowers the best score; an eligible playlist
/// that can be scored leaves a best score at least its own; and a playlist that scores the
/// same as the best so far does not replace it (the first of the best playlists is kept).
pub proof fn lemma_offer_keeps_highest(ctx: PeelCtx, info: PlaylistInfo)
    ensures
        ctx.offer_best(info).score >= ctx.best().score,
        playlist_eligible(info) && ctx.fits(info.tracks@) ==> ctx.offer_best(info).score
            >= ctx.choice_for(info.tracks@).score,
        ctx.choice_for(info.tracks@).score == ctx.best().score ==> ctx.offer_best(info)
            == ctx.best(),
{
}

/// A non-empty list of ids is not empty text.
proof fn lemma_comma_list_nonempty(ids: Seq<u16>)
    requires
        ids.len() > 0,
    ensures
        comma_list(ids).len() > 0,
    decreases ids.len(),
{
    crate::text::lemma_decimal_digits(ids.last() as nat);
    if ids.len() > 1 {
        lemma_comma_list_nonempty(ids.drop_last());
    }
}

/// Law of the list of ids: once the list of ids has been asked for, asking again gives the
/// same list.
pub proof fn lemma_ids_stable(m: Map<LangId, TrackCtx>, first: Seq<char>, second: Seq<char>, third: Seq<char>)
    requires
        ids_cache_step(m, first, second),
        ids_cache_step(m, second, third),
    ensures
        third == second,
{
    if first.len() == 0 {
        let keys = choose|keys: Seq<LangId>| lists_keys(m, keys) && second == ids_text(m, keys);
        if keys.len() > 0 {
            lemma_comma_list_nonempty(keys.map_values(|k: LangId| m[k].id));
        } else {
            assert(second.len() == 0);
            let keys2 = choose|keys2: Seq<LangId>| lists_keys(m, keys2) && third == ids_text(m, keys2);
            assert(keys.to_set() =~= Set::<LangId>::empty());
            if keys2.len() > 0 {
                assert(keys2.to_set().contains(keys2[0]));
            }
            assert(keys2.len() == 0);
        }
    }
}

/// `tracks` without the tracks flagged as commentary, in order.
pub open spec fn without_commentary(tracks: Seq<TrackInfo>) -> Seq<TrackInfo>
    decreases tracks.len(),
{
    if tracks.len() == 0 {
        tracks
    } else {
        let rest = without_commentary(tracks.drop_last());
        if track_is_commentary(tracks.last()) {
            rest
        } else {
            rest.push(tracks.last())
        }
    }
}

/// Law of skipping commentary: a choice that skips commentary tracks is the choice made, not
/// skipping anything, from the playlist with its commentary tracks taken out.
pub proof fn lemma_skip_commentary_removes(
    tracks: Seq<TrackInfo>,
    langs: Seq<LangId>,
    codecs: Seq<TrackBuff>,
    names: Seq<TrackBuff>,
)
    ensures
        choose_tracks(tracks, langs, codecs, names, true) == choose_tracks(
            without_commentary(tracks),
            langs,
            codecs,
            names,
            false,
        ),
    decreases tracks.len(),
{
    if tracks.len() > 0 {
        lemma_skip_commentary_removes(tracks.drop_last(), langs, codecs, names);
        let rest = without_commentary(tracks.drop_last());
        if !track_is_commentary(tracks.last()) {
            assert(rest.push(tracks.last()).drop_last() =~= rest);
        }
    }
}

/// The tracks kept per language after offering `tracks`, in order, to an empty map.
pub open spec fn upsert_all(
    tracks: Seq<TrackInfo>,
    langs: Seq<LangId>,
    codecs: Seq<TrackBuff>,
    names: Seq<TrackBuff>,
) -> Map<LangId, TrackCtx>
    decreases tracks.len(),
{
    if tracks.len() == 0 {
        Map::empty()
    } else {
        upsert_map(upsert_all(tracks.drop_last(), langs, codecs, names), tracks.last(), langs, codecs, names)
    }
}

/// Track `i` is the one that `m` keeps for language `l`: it is in that language, `m` records
/// its id and score, the tracks of that language before it score less, and those after it
/// score no more.
pub open spec fn wins(
    m: Map<LangId, TrackCtx>,
    tracks: Seq<TrackInfo>,
    i: int,
    l: LangId,
    langs: Seq<LangId>,
    codecs: Seq<TrackBuff>,
    names: Seq<TrackBuff>,
) -> bool {
    &&& 0 <= i < tracks.len()
    &&& wanted_lang(tracks[i], langs) == Some(l)
    &&& m[l] == TrackCtx { id: tracks[i].id, buff: track_buff(tracks[i], codecs, names) as i16 }
    &&& forall|j: int|
        0 <= j < tracks.len() && wanted_lang(#[trigger] tracks[j], langs) == Some(l) ==> (j < i
            ==> track_buff(tracks[j], codecs, names) < track_buff(tracks[i], codecs, names)) && (i
            < j ==> track_buff(tracks[j], codecs, names) <= track_buff(tracks[i], codecs, names))
}

/// A winner stays the winner when a track that does not beat it is added after it.
proof fn lemma_wins_extend(
    m: Map<LangId, TrackCtx>,
    mp: Map<LangId, TrackCtx>,
    pre: Seq<TrackInfo>,
    t: TrackInfo,
    i: int,
    l: LangId,
    langs: Seq<LangId>,
    codecs: Seq<TrackBuff>,
    names: Seq<TrackBuff>,
)
    requires
        wins(mp, pre, i, l, langs, codecs, names),
        m[l] == mp[l],
        wanted_lang(t, langs) == Some(l) ==> track_buff(t, codecs, names) <= track_buff(
            pre[i],
            codecs,
            names,
        ),
    ensures
        wins(m, pre.push(t), i, l, langs, codecs, names),
{
    let tracks = pre.push(t);
    assert(tracks[i] == pre[i]);
    assert forall|j: int|
        0 <= j < tracks.len() && wanted_lang(#[trigger] tracks[j], langs) == Some(l) implies (j < i
        ==> track_buff(tracks[j], codecs, names) < track_buff(tracks[i], codecs, names)) && (i < j
        ==> track_buff(tracks[j], codecs, names) <= track_buff(tracks[i], codecs, names)) by {
        if j < pre.len() {
            assert(tracks[j] == pre[j]);
        }
    }
}

/// An added track wins when it beats every earlier track of its language.
proof fn lemma_wins_new(
    m: Map<LangId, TrackCtx>,
    pre: Seq<TrackInfo>,
    t: TrackInfo,
    l: LangId,
    langs: Seq<LangId>,
    codecs: Seq<TrackBuff>,
    names: Seq<TrackBuff>,
)
    requires
        wanted_lang(t, langs) == Some(l),
        m[l] == (TrackCtx { id: t.id, buff: track_buff(t, codecs, names) as i16 }),
        forall|j: int|
            0 <= j < pre.len() && wanted_lang(#[trigger] pre[j], langs) == Some(l) ==> track_buff(
                pre[j],
                codecs,
                names,
            ) < track_buff(t, codecs, names),
    ensures
        wins(m, pre.push(t), pre.len() as int, l, langs, codecs, names),
{
    let tracks = pre.push(t);
    assert(tracks[pre.len() as int] == t);
    assert forall|j: int|
        0 <= j < tracks.len() && wanted_lang(#[trigger] tracks[j], langs) == Some(l) implies (j
        < pre.len() ==> track_buff(tracks[j], codecs, names) < track_buff(
        tracks[pre.len() as int],
        codecs,
        names,
    )) && (pre.len() < j ==> track_buff(tracks[j], codecs, names) <= track_buff(
        tracks[pre.len() as int],
        codecs,
        names,
    )) by {
        if j < pre.len() {
            assert(tracks[j] == pre[j]);
        }
    }
}

/// Law of upserting: after offering any sequence of tracks, in order, to an empty map, the
/// languages kept are exactly the wanted languages of the tracks, and the track kept for a
/// language is the first of the highest-scoring tracks in that language.
pub proof fn lemma_upserts_keep_best(
    tracks: Seq<TrackInfo>,
    langs: Seq<LangId>,
    codecs: Seq<TrackBuff>,
    names: Seq<TrackBuff>,
)
    requires
        forall|i: int| 0 <= i < tracks.len() ==> upsert_fits(#[trigger] tracks[i], langs, codecs, names),
    ensures
        ({
            let m = upsert_all(tracks, langs, codecs, names);
            &&& forall|l: LangId|
                #[trigger] m.contains_key(l) ==> exists|i: int| wins(m, tracks, i, l, langs, codecs, names)
            &&& forall|i: int|
                0 <= i < tracks.len() && wanted_lang(#[trigger] tracks[i], langs) is Some
                    ==> m.contains_key(wanted_lang(tracks[i], langs)->0)
        }),
    decreases tracks.len(),
{
    let m = upsert_all(tracks, langs, codecs, names);
    if tracks.len() == 0 {
        assert(m =~= Map::<LangId, TrackCtx>::empty());
    } else {
        let n = tracks.len() - 1;
        let pre = tracks.drop_last();
        let t = tracks.last();
        assert(tracks =~= pre.push(t));
        assert forall|i: int| 0 <= i < pre.len() implies #[trigger] tracks[i] == pre[i] by {}
        assert forall|i: int| 0 <= i < pre.len() implies upsert_fits(#[trigger] pre[i], langs, codecs, names) by {
            assert(tracks[i] == pre[i]);
        }
        lemma_upserts_keep_best(pre, langs, codecs, names);
        let mp = upsert_all(pre, langs, codecs, names);
        assert(tracks[n] == t);
        assert(upsert_fits(t, langs, codecs, names));
        if wanted_lang(t, langs) is Some {
            let l0 = wanted_lang(t, langs)->0;
            let bt = track_buff(t, codecs, names);
            assert forall|l: LangId| #[trigger] m.contains_key(l) implies exists|i: int|
                wins(m, tracks, i, l, langs, codecs, names) by {
                if l == l0 && mp.contains_key(l0) {
                    let i0 = choose|i: int| wins(mp, pre, i, l0, langs, codecs, names);
                    assert(upsert_fits(tracks[i0], langs, codecs, names));
                    if mp[l0].buff < bt as i16 {
                        lemma_wins_new(m, pre, t, l0, langs, codecs, names);
                        assert(wins(m, tracks, n, l, langs, codecs, names));
                    } else {
                        lemma_wins_extend(m, mp, pre, t, i0, l0, langs, codecs, names);
                        assert(wins(m, tracks, i0, l, langs, codecs, names));
                    }
                } else if l == l0 {
                    assert forall|j: int|
                        0 <= j < pre.len() && wanted_lang(#[trigger] pre[j], langs) == Some(l0)
                            implies track_buff(pre[j], codecs, names) < track_buff(t, codecs, names) by {
                        assert(mp.contains_key(wanted_lang(pre[j], langs)->0));
                    }
                    lemma_wins_new(m, pre, t, l0, langs, codecs, names);
                    assert(wins(m, tracks, n, l, langs, codecs, names));
                } else {
                    assert(mp.contains_key(l));
                    let i0 = choose|i: int| wins(mp, pre, i, l, langs, codecs, names);
                    lemma_wins_extend(m, mp, pre, t, i0, l, langs, codecs, names);
                    assert(wins(m, tracks, i0, l, langs, codecs, names));
                }
            }
        } else {
            assert forall|l: LangId| #[trigger] m.contains_key(l) implies exists|i: int|
                wins(m, tracks, i, l, langs, codecs, names) by {
                let i0 = choose|i: int| wins(mp, pre, i, l, langs, codecs, names);
                lemma_wins_extend(m, mp, pre, t, i0, l, langs, codecs, names);
                assert(wins(m, tracks, i0, l, langs, codecs, names));
            }
        }
        assert forall|i: int|
            0 <= i < tracks.len() && wanted_lang(#[trigger] tracks[i], langs) is Some
                implies m.contains_key(wanted_lang(tracks[i], langs)->0) by {
            if i < n {
                assert(pre[i] == tracks[i]);
            }
        }
    }
}

/// Law of the preference scores: the score that a list of preferences gives adds up over
/// the two parts of the list.
pub proof fn lemma_buff_sum_concat(value: Option<Seq<char>>, a: Seq<TrackBuff>, b: Seq<TrackBuff>)
    ensures
        buff_sum(value, a + b) == buff_sum(value, a) + buff_sum(value, b),
    decreases b.len(),
{
    if b.len() == 0 {
        assert(a + b =~= a);
    } else {
        lemma_buff_sum_concat(value, a, b.drop_last());
        assert((a + b).drop_last() =~= a + b.drop_last());
        assert((a + b).last() == b.last());
    }
}

/// Law of the preference scores: the score that a list of preferences gives does not depend
/// on the order of the list.
pub proof fn lemma_buff_sum_permutation(value: Option<Seq<char>>, a: Seq<TrackBuff>, b: Seq<TrackBuff>)
    requires
        a.to_multiset() == b.to_multiset(),
    ensures
        buff_sum(value, a) == buff_sum(value, b),
    decreases a.len(),
{
    broadcast use vstd::seq_lib::group_to_multiset_ensures;

    if a.len() == 0 {
        assert(b.to_multiset().len() == 0);
        assert(b.len() == 0);
    } else {
        let x = a.last();
        assert(a =~= a.drop_last().push(x));
        assert(a.to_multiset() == a.drop_last().to_multiset().insert(x));
        assert(b.to_multiset().count(x) > 0);
        assert(b.contains(x));
        let k = choose|k: int| 0 <= k < b.len() && b[k] == x;
        let b1 = b.take(k);
        let b2 = b.skip(k + 1);
        let rest = b1 + b2;
        assert(b =~= b1 + seq![x] + b2);
        assert(rest =~= b.remove(k));
        assert(rest.to_multiset() =~= b.to_multiset().remove(x));
        assert(a.drop_last().to_multiset() =~= a.to_multiset().remove(x));
        lemma_buff_sum_permutation(value, a.drop_last(), rest);
        lemma_buff_sum_concat(value, b1 + seq![x], b2);
        lemma_buff_sum_concat(value, b1, seq![x]);
        lemma_buff_sum_concat(value, b1, b2);
        assert(seq![x].drop_last() =~= Seq::<TrackBuff>::empty());
        assert(seq![x].last() == x);
        assert(buff_sum(value, Seq::<TrackBuff>::empty()) == 0);
        assert(buff_sum(value, a) == buff_sum(value, a.drop_last()) + buff_sum(value, seq![x]));
        assert(buff_sum(value, b) == buff_sum(value, b1) + buff_sum(value, seq![x]) + buff_sum(
            value,
            b2,
        ));
    }
}

/// Law of beginning afresh: a context that `begin` has cleared, whatever it did before, is
/// in the same state as a new context with the same preferences; and two contexts in the
/// same state give the same answer to an offer, take the same choice from a playlist, and
/// leave the same best playlist.
pub proof fn lemma_begin_is_fresh(used: PeelCtx, fresh: PeelCtx, info: PlaylistInfo)
    requires
        used.same_preferences(&fresh),
        used.is_fresh(),
        fresh.is_fresh(),
    ensures
        used.same_state(&fresh),
        used.offer_answer(info) == fresh.offer_answer(info),
        used.offer_best(info) == fresh.offer_best(info),
        used.fits(info.tracks@) == fresh.fits(info.tracks@),
        used.choice_for(info.tracks@) == fresh.choice_for(info.tracks@),
{
    lemma_same_state_answers_alike(used, fresh, info);
}

/// Two contexts in the same state answer every offer alike.
pub proof fn lemma_same_state_answers_alike(a: PeelCtx, b: PeelCtx, info: PlaylistInfo)
    requires
        a.same_state(&b),
    ensures
        a.offer_answer(info) == b.offer_answer(info),
        a.offer_best(info) == b.offer_best(info),
        a.fits(info.tracks@) == b.fits(info.tracks@),
        a.choice_for(info.tracks@) == b.choice_for(info.tracks@),
{
}

/// Law of a track's language: a track whose IETF tag names a language has that language,
/// whatever its plain tag says; a track whose IETF tag is missing or names none has the
/// language of its plain tag.
pub proof fn lemma_track_language(t: TrackInfo)
    ensures
        (t.properties.language_ietf matches Some(x) && tag_language(x@) is Some) ==> track_lang(t)
            == tag_language(t.properties.language_ietf->0@),
        (t.properties.language_ietf matches Some(x) ==> tag_language(x@) is None) ==> track_lang(t)
            == match t.properties.language {
            Some(x) => tag_language(x@),
            None => None,
        },
{
}

/// Law of the language a track is kept under: it is the track's language (see
/// `lemma_track_language`), and only when that language is wanted.
pub proof fn lemma_kept_language(t: TrackInfo, langs: Seq<LangId>, l: LangId)
    ensures
        wanted_lang(t, langs) == Some(l) <==> track_lang(t) == Some(l) && langs.contains(l),
        wanted_lang(t, langs) is None <==> (track_lang(t) is None || !langs.contains(
            track_lang(t)->0,
        )),
{
}

/// Law of offering a track: a track whose language is wanted leaves a track kept for its
/// language; the tracks kept for every other language are unchanged.
pub proof fn lemma_upsert_own_language(
    m: Map<LangId, TrackCtx>,
    t: TrackInfo,
    langs: Seq<LangId>,
    codecs: Seq<TrackBuff>,
    names: Seq<TrackBuff>,
)
    ensures
        forall|l: LangId|
            track_lang(t) == Some(l) && langs.contains(l) ==> #[trigger] upsert_map(
                m,
                t,
                langs,
                codecs,
                names,
            ).contains_key(l),
        forall|k: LangId|
            !(track_lang(t) == Some(k) && langs.contains(k)) ==> (#[trigger] upsert_map(
                m,
                t,
                langs,
                codecs,
                names,
            ).contains_key(k) == m.contains_key(k)) && (m.contains_key(k) ==> upsert_map(
                m,
                t,
                langs,
                codecs,
                names,
            )[k] == m[k]),
{
}

/// The number of tracks of `tracks` that take part in the choice and are of kind `kind`.
pub open spec fn count_kind(tracks: Seq<TrackInfo>, kind: Seq<char>, skip_commentary: bool) -> nat
    decreases tracks.len(),
{
    if tracks.len() == 0 {
        0
    } else {
        count_kind(tracks.drop_last(), kind, skip_commentary) + if track_counts(
            tracks.last(),
            skip_commentary,
        ) && kind_is(tracks.last(), kind) {
            1nat
        } else {
            0nat
        }
    }
}

/// Law of the playlist score: 1000 for each video track, 100 for each audio track and 10
/// for each subtitle track that takes part in the choice, whatever the preferences.
pub proof fn lemma_score_counts_tracks(
    tracks: Seq<TrackInfo>,
    langs: Seq<LangId>,
    codecs: Seq<TrackBuff>,
    names: Seq<TrackBuff>,
    skip_commentary: bool,
)
    ensures
        choose_tracks(tracks, langs, codecs, names, skip_commentary).score == 1000 * count_kind(
            tracks,
            "video"@,
            skip_commentary,
        ) + 100 * count_kind(tracks, "audio"@, skip_commentary) + 10 * count_kind(
            tracks,
            "subtitles"@,
            skip_commentary,
        ),
    decreases tracks.len(),
{
    lemma_kind_names_differ();
    if tracks.len() > 0 {
        lemma_score_counts_tracks(tracks.drop_last(), langs, codecs, names, skip_commentary);
    }
}

} // verus!
